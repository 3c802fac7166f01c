//! Character-level text helpers shared by the parsers and writers.
use vstd::prelude::*;

verus! {

/// The characters of `s`, in order.
pub fn chars_of(s: &str) -> (v: Vec<char>)
    ensures
        v@ == s@,
{
    let mut v: Vec<char> = Vec::new();
    for c in it: s.chars()
        invariant
            v@ == it.seq().take(it.index() as int),
    {
        v.push(c);
    }
    assert(v@ == s@);
    v
}

/// A `String` holding exactly `cs`.
#[verifier::external_body]
pub fn string_from_chars(cs: &[char]) -> (s: String)
    ensures
        s@ == cs@,
{
    cs.iter().collect()
}

} // verus!

verus! {

/// The ASCII digit for `d` (`d < 10`).
pub fn digit_char(d: u32) -> (c: char)
    requires
        d < 10,
    ensures
        c as int == d as int + '0' as int,
{
    let b: u8 = 48u8 + d as u8;
    b as char
}

pub fn is_ascii_digit(c: char) -> (b: bool)
    ensures
        b == ('0' <= c <= '9'),
{
    '0' <= c && c <= '9'
}

} // verus!

verus! {

/// Unicode `White_Space` (what `char::is_whitespace` tests).
pub open spec fn is_ws(c: char) -> bool {
    ('\u{9}' <= c && c <= '\u{d}') || c == ' ' || c == '\u{85}' || c == '\u{a0}' || c == '\u{1680}'
        || ('\u{2000}' <= c && c <= '\u{200a}') || c == '\u{2028}' || c == '\u{2029}' || c == '\u{202f}'
        || c == '\u{205f}' || c == '\u{3000}'
}

/// ASCII whitespace (what `u8::is_ascii_whitespace` tests): space, tab, line
/// feed, form feed, carriage return.
pub open spec fn is_ascii_ws(c: char) -> bool {
    c == ' ' || c == '\t' || c == '\n' || c == '\u{c}' || c == '\r'
}

pub fn is_whitespace(c: char) -> (b: bool)
    ensures
        b == is_ws(c),
{
    ('\u{9}' <= c && c <= '\u{d}') || c == ' ' || c == '\u{85}' || c == '\u{a0}' || c == '\u{1680}'
        || ('\u{2000}' <= c && c <= '\u{200a}') || c == '\u{2028}' || c == '\u{2029}' || c == '\u{202f}'
        || c == '\u{205f}' || c == '\u{3000}'
}

pub fn is_ascii_whitespace(c: char) -> (b: bool)
    ensures
        b == is_ascii_ws(c),
{
    c == ' ' || c == '\t' || c == '\n' || c == '\u{c}' || c == '\r'
}

/// Index of the first non-whitespace character (or the length).
pub open spec fn trim_start_idx(s: Seq<char>) -> int
    decreases s.len(),
{
    if s.len() == 0 {
        0
    } else if is_ws(s[0]) {
        1 + trim_start_idx(s.drop_first())
    } else {
        0
    }
}

/// Index just past the last non-whitespace character (or zero).
pub open spec fn trim_end_idx(s: Seq<char>) -> int
    decreases s.len(),
{
    if s.len() == 0 {
        0
    } else if is_ws(s.last()) {
        trim_end_idx(s.drop_last())
    } else {
        s.len() as int
    }
}

/// `s` without leading and trailing whitespace (`str::trim`).
pub open spec fn trim(s: Seq<char>) -> Seq<char> {
    let b = trim_start_idx(s);
    let e = trim_end_idx(s);
    if b >= e { Seq::empty() } else { s.subrange(b, e) }
}

/// `s` without leading whitespace (`str::trim_start`).
pub open spec fn trim_start(s: Seq<char>) -> Seq<char> {
    s.subrange(trim_start_idx(s), s.len() as int)
}

/// `s` without trailing whitespace (`str::trim_end`).
pub open spec fn trim_end(s: Seq<char>) -> Seq<char> {
    s.subrange(0, trim_end_idx(s))
}

pub proof fn lemma_trim_start_idx(s: Seq<char>)
    ensures
        0 <= trim_start_idx(s) <= s.len(),
        forall|i: int| 0 <= i < trim_start_idx(s) ==> is_ws(#[trigger] s[i]),
        trim_start_idx(s) < s.len() ==> !is_ws(s[trim_start_idx(s)]),
    decreases s.len(),
{
    if s.len() > 0 && is_ws(s[0]) {
        lemma_trim_start_idx(s.drop_first());
        assert forall|i: int| 0 <= i < trim_start_idx(s) implies is_ws(#[trigger] s[i]) by {
            if i > 0 {
                assert(s[i] == s.drop_first()[i - 1]);
            }
        }
    }
}

pub proof fn lemma_trim_end_idx(s: Seq<char>)
    ensures
        0 <= trim_end_idx(s) <= s.len(),
        forall|i: int| trim_end_idx(s) <= i < s.len() ==> is_ws(#[trigger] s[i]),
        trim_end_idx(s) > 0 ==> !is_ws(s[trim_end_idx(s) - 1]),
    decreases s.len(),
{
    if s.len() > 0 && is_ws(s.last()) {
        lemma_trim_end_idx(s.drop_last());
        assert forall|i: int| trim_end_idx(s) <= i < s.len() implies is_ws(#[trigger] s[i]) by {
            if i < s.len() - 1 {
                assert(s[i] == s.drop_last()[i]);
            }
        }
    }
}

/// The bounds `(b, e)` of the trimmed part of `s`.
pub fn trim_bounds(s: &[char]) -> (r: (usize, usize))
    ensures
        r.0 as int == trim_start_idx(s@),
        r.1 as int == trim_end_idx(s@),
        r.0 <= s@.len(),
        r.1 <= s@.len(),
{
    let mut b: usize = 0;
    assert(s@.subrange(0, s@.len() as int) =~= s@);
    while b < s.len() && is_whitespace(s[b])
        invariant
            b <= s@.len(),
            trim_start_idx(s@) == b + trim_start_idx(s@.subrange(b as int, s@.len() as int)),
        decreases s@.len() - b,
    {
        assert(s@.subrange(b as int, s@.len() as int).drop_first() =~= s@.subrange(b + 1, s@.len() as int));
        b += 1;
    }
    proof {
        let rest = s@.subrange(b as int, s@.len() as int);
        if b < s@.len() {
            assert(rest[0] == s@[b as int]);
        } else {
            assert(rest.len() == 0);
        }
    }
    let mut e: usize = s.len();
    assert(s@.subrange(0, s@.len() as int) =~= s@);
    while e > 0 && is_whitespace(s[e - 1])
        invariant
            e <= s@.len(),
            trim_end_idx(s@) == trim_end_idx(s@.subrange(0, e as int)),
        decreases e,
    {
        assert(s@.subrange(0, e as int).drop_last() =~= s@.subrange(0, e - 1));
        e -= 1;
    }
    proof {
        let pre = s@.subrange(0, e as int);
        if e > 0 {
            assert(pre.last() == s@[e - 1]);
        }
        assert(s@.subrange(0, s@.len() as int) =~= s@);
    }
    (b, e)
}

/// `s` trimmed of whitespace at both ends.
pub fn trim_chars(s: &[char]) -> (r: Vec<char>)
    ensures
        r@ == trim(s@),
{
    let (b, e) = trim_bounds(s);
    if b >= e {
        return Vec::new();
    }
    slice_to_vec(s, b, e)
}

/// Copy of `s[b..e]`.
pub fn slice_to_vec(s: &[char], b: usize, e: usize) -> (r: Vec<char>)
    requires
        b <= e <= s@.len(),
    ensures
        r@ == s@.subrange(b as int, e as int),
{
    let mut v: Vec<char> = Vec::new();
    let mut i = b;
    while i < e
        invariant
            b <= i <= e,
            e <= s@.len(),
            v@ == s@.subrange(b as int, i as int),
        decreases e - i,
    {
        v.push(s[i]);
        i += 1;
        assert(v@ =~= s@.subrange(b as int, i as int));
    }
    v
}

/// `s` trimmed, as a `String`.
pub fn trim_str(s: &str) -> (r: String)
    ensures
        r@ == trim(s@),
{
    let cs = chars_of(s);
    let t = trim_chars(&cs);
    string_from_chars(&t)
}

// ── Decimal numbers ─────────────────────────────────────────────────────────

/// The ASCII digit for `d` in `0..10`.
pub open spec fn digit_of(d: int) -> char {
    (d + '0' as int) as char
}

/// Decimal digits of `n` without leading zeros (`"0"` for zero).
pub open spec fn nat_digits(n: nat) -> Seq<char>
    decreases n,
{
    if n < 10 {
        seq![digit_of(n as int)]
    } else {
        nat_digits(n / 10).push(digit_of((n % 10) as int))
    }
}

/// Decimal form of an integer, as `to_string` writes it.
pub open spec fn int_decimal(i: int) -> Seq<char> {
    if i < 0 { seq!['-'] + nat_digits((-i) as nat) } else { nat_digits(i as nat) }
}

/// Append the decimal digits of `n`.
pub fn push_digits(out: &mut Vec<char>, n: u128)
    ensures
        final(out)@ == old(out)@ + nat_digits(n as nat),
    decreases n,
{
    if n < 10 {
        out.push(digit_char(n as u32));
        assert(out@ =~= old(out)@ + nat_digits(n as nat));
    } else {
        push_digits(out, n / 10);
        let ghost mid = out@;
        out.push(digit_char((n % 10) as u32));
        assert(out@ =~= old(out)@ + nat_digits(n as nat));
    }
}

/// Append the decimal form of `i`.
pub fn push_int(out: &mut Vec<char>, i: i64)
    ensures
        final(out)@ == old(out)@ + int_decimal(i as int),
{
    if i < 0 {
        out.push('-');
        let m: u128 = (0i128 - i as i128) as u128;
        push_digits(out, m);
        assert(out@ =~= old(out)@ + int_decimal(i as int));
    } else {
        push_digits(out, i as u128);
    }
}

/// Decimal form of `i` as a `String`.
pub fn int_to_string(i: i64) -> (s: String)
    ensures
        s@ == int_decimal(i as int),
{
    let mut v: Vec<char> = Vec::new();
    push_int(&mut v, i);
    assert(v@ =~= int_decimal(i as int));
    string_from_chars(&v)
}

/// Are all of `s` ASCII digits?
pub open spec fn all_digits(s: Seq<char>) -> bool {
    forall|i: int| 0 <= i < s.len() ==> '0' <= #[trigger] s[i] <= '9'
}

/// Value of a run of decimal digits.
pub open spec fn digits_value(s: Seq<char>) -> int
    decreases s.len(),
{
    if s.len() == 0 {
        0
    } else {
        digits_value(s.drop_last()) * 10 + (s.last() as int - '0' as int)
    }
}

/// Rust's integer `FromStr` syntax, before the range check: an optional `+`
/// (or, when `signed`, `-`) and then at least one ASCII digit.
pub open spec fn spec_parse_int(s: Seq<char>, signed: bool) -> Option<int> {
    if s.len() > 0 && (s[0] == '+' || (signed && s[0] == '-')) {
        let rest = s.drop_first();
        if rest.len() > 0 && all_digits(rest) {
            Some(if s[0] == '-' { -digits_value(rest) } else { digits_value(rest) })
        } else {
            None
        }
    } else if s.len() > 0 && all_digits(s) {
        Some(digits_value(s))
    } else {
        None
    }
}

/// `s.parse::<T>()` for an integer type with range `lo..=hi`.
pub open spec fn spec_parse_in(s: Seq<char>, signed: bool, lo: int, hi: int) -> Option<int> {
    match spec_parse_int(s, signed) {
        Some(v) => if lo <= v <= hi { Some(v) } else { None },
        None => None,
    }
}

pub proof fn lemma_digits_value_nonneg(s: Seq<char>)
    requires
        all_digits(s),
    ensures
        digits_value(s) >= 0,
    decreases s.len(),
{
    if s.len() > 0 {
        lemma_digits_value_nonneg(s.drop_last());
    }
}

/// Value of the digits `s[b..e]`, capped at `2^64`.
fn digits_capped(s: &[char], b: usize, e: usize) -> (r: (bool, u128))
    requires
        b <= e <= s@.len(),
    ensures
        r.0 == all_digits(s@.subrange(b as int, e as int)),
        r.0 ==> r.1 as int == (if digits_value(s@.subrange(b as int, e as int)) >= 0x1_0000_0000_0000_0000 { 0x1_0000_0000_0000_0000 } else { digits_value(s@.subrange(b as int, e as int)) }),
{
    let big: u128 = 0x1_0000_0000_0000_0000;
    let mut acc: u128 = 0;
    let mut i = b;
    while i < e
        invariant
            b <= i <= e,
            e <= s@.len(),
            big == 0x1_0000_0000_0000_0000u128,
            all_digits(s@.subrange(b as int, i as int)),
            acc as int == (if digits_value(s@.subrange(b as int, i as int)) >= big { big as int } else { digits_value(s@.subrange(b as int, i as int)) }),
        decreases e - i,
    {
        let c = s[i];
        if !('0' <= c && c <= '9') {
            assert(!all_digits(s@.subrange(b as int, e as int))) by {
                assert(s@.subrange(b as int, e as int)[i - b] == c);
            }
            return (false, 0);
        }
        let d = (c as u32 - 48) as u128;
        proof {
            let pre = s@.subrange(b as int, i as int);
            let nxt = s@.subrange(b as int, i + 1);
            assert(nxt.drop_last() =~= pre);
            assert(nxt.last() == c);
            lemma_digits_value_nonneg(pre);
        }
        if acc >= big {
            acc = big;
        } else {
            let v = acc * 10 + d;
            acc = if v >= big { big } else { v };
        }
        i += 1;
        assert(all_digits(s@.subrange(b as int, i as int)));
    }
    (true, acc)
}

/// `str::parse` for a signed or unsigned integer type with range `lo..=hi`
/// (`|lo|, hi < 2^63`), over a character slice.
pub fn parse_int_chars(s: &[char], signed: bool, lo: i64, hi: i64) -> (r: Option<i64>)
    requires
        lo <= 0 <= hi,
    ensures
        match r {
            Some(v) => spec_parse_in(s@, signed, lo as int, hi as int) == Some(v as int),
            None => spec_parse_in(s@, signed, lo as int, hi as int) is None,
        },
{
    if s.len() == 0 {
        return None;
    }
    let neg = s[0] == '-';
    let has_sign = s[0] == '+' || (signed && neg);
    if !has_sign && neg {
        proof {
            assert(!all_digits(s@)) by { assert(s@[0] == '-'); }
        }
        return None;
    }
    let b: usize = if has_sign { 1 } else { 0 };
    if b == s.len() {
        return None;
    }
    let (ok, v) = digits_capped(s, b, s.len());
    proof {
        if has_sign {
            assert(s@.subrange(1, s@.len() as int) =~= s@.drop_first());
        } else {
            assert(s@.subrange(0, s@.len() as int) =~= s@);
            if s@[0] == '+' || s@[0] == '-' {
                assert(!all_digits(s@));
            }
        }
    }
    if !ok {
        return None;
    }
    proof {
        lemma_digits_value_nonneg(s@.subrange(b as int, s@.len() as int));
    }
    if has_sign && neg {
        if v > (0i128 - lo as i128) as u128 {
            return None;
        }
        Some((0i128 - v as i128) as i64)
    } else {
        if v > hi as u128 {
            return None;
        }
        Some(v as i64)
    }
}

} // verus!

verus! {

// ── Whitespace tokens ───────────────────────────────────────────────────────

/// The tokens of `s[i..]` (as `str::split_whitespace`), where `start` is the
/// start of the token being read at `i`, or `-1` between tokens.
pub open spec fn tokens_from(s: Seq<char>, i: int, start: int) -> Seq<Seq<char>>
    decreases s.len() - i,
{
    if i < 0 || i >= s.len() {
        if 0 <= start <= s.len() { seq![s.subrange(start, s.len() as int)] } else { Seq::empty() }
    } else if is_ws(s[i]) {
        if 0 <= start <= i {
            seq![s.subrange(start, i)] + tokens_from(s, i + 1, -1)
        } else {
            tokens_from(s, i + 1, -1)
        }
    } else {
        tokens_from(s, i + 1, if start >= 0 { start } else { i })
    }
}

/// The maximal runs of non-whitespace characters of `s`, in order.
pub open spec fn ws_tokens(s: Seq<char>) -> Seq<Seq<char>> {
    tokens_from(s, 0, -1)
}

/// `s.split_whitespace()`, as owned strings.
pub fn split_ws(s: &str) -> (r: Vec<String>)
    ensures
        r@.map_values(|t: String| t@) == ws_tokens(s@),
{
    let cs = chars_of(s);
    let mut out: Vec<String> = Vec::new();
    let mut i: usize = 0;
    let mut start: usize = 0;
    let mut in_tok = false;
    while i < cs.len()
        invariant
            i <= cs@.len(),
            cs@ == s@,
            in_tok ==> start <= i,
            ws_tokens(s@) == out@.map_values(|t: String| t@) + tokens_from(s@, i as int, if in_tok { start as int } else { -1 }),
        decreases cs@.len() - i,
    {
        let ghost before = out@.map_values(|t: String| t@);
        if is_whitespace(cs[i]) {
            if in_tok {
                let piece = slice_to_vec(&cs, start, i);
                out.push(string_from_chars(&piece));
                assert(out@.map_values(|t: String| t@) =~= before.push(s@.subrange(start as int, i as int)));
                assert(before + (seq![s@.subrange(start as int, i as int)] + tokens_from(s@, i + 1, -1))
                    =~= out@.map_values(|t: String| t@) + tokens_from(s@, i + 1, -1));
            }
            in_tok = false;
        } else if !in_tok {
            in_tok = true;
            start = i;
        }
        i += 1;
    }
    let ghost before = out@.map_values(|t: String| t@);
    if in_tok {
        let piece = slice_to_vec(&cs, start, cs.len());
        out.push(string_from_chars(&piece));
        assert(out@.map_values(|t: String| t@) =~= before.push(s@.subrange(start as int, s@.len() as int)));
        assert(before + seq![s@.subrange(start as int, s@.len() as int)] =~= out@.map_values(|t: String| t@));
    } else {
        assert(before + Seq::<Seq<char>>::empty() =~= before);
    }
    out
}

/// Equality of two strings' characters.
pub fn str_eq(a: &str, b: &str) -> (r: bool)
    ensures
        r == (a@ == b@),
{
    let x = chars_of(a);
    let y = chars_of(b);
    if x.len() != y.len() {
        return false;
    }
    let mut i: usize = 0;
    while i < x.len()
        invariant
            i <= x@.len(),
            x@.len() == y@.len(),
            x@ == a@,
            y@ == b@,
            forall|j: int| 0 <= j < i ==> x@[j] == y@[j],
        decreases x@.len() - i,
    {
        if x[i] != y[i] {
            assert(a@[i as int] != b@[i as int]);
            return false;
        }
        i += 1;
    }
    assert(x@ =~= y@);
    true
}

/// The view of an optional string slice.
pub open spec fn opt_str_view(o: Option<&str>) -> Option<Seq<char>> {
    match o {
        Some(s) => Some(s@),
        None => None,
    }
}

} // verus!

verus! {

/// `s` without its leading run of `c` (`str::trim_start_matches(c)`).
pub open spec fn strip_lead(s: Seq<char>, c: char) -> Seq<char>
    decreases s.len(),
{
    if s.len() > 0 && s[0] == c { strip_lead(s.drop_first(), c) } else { s }
}

/// `s` without its trailing run of `c` (`str::trim_end_matches(c)`).
pub open spec fn strip_trail(s: Seq<char>, c: char) -> Seq<char>
    decreases s.len(),
{
    if s.len() > 0 && s.last() == c { strip_trail(s.drop_last(), c) } else { s }
}

/// The text between optional delimiters: trimmed, leading `open`s and
/// trailing `close`s removed, trimmed again.
pub open spec fn unwrap_delimited(s: Seq<char>, open: char, close: char) -> Seq<char> {
    trim(strip_trail(strip_lead(trim(s), open), close))
}

/// `s` without its leading run of `c`.
pub fn strip_lead_chars(s: &[char], c: char) -> (r: Vec<char>)
    ensures
        r@ == strip_lead(s@, c),
{
    let mut b: usize = 0;
    assert(s@.subrange(0, s@.len() as int) =~= s@);
    while b < s.len() && s[b] == c
        invariant
            b <= s@.len(),
            strip_lead(s@, c) == strip_lead(s@.subrange(b as int, s@.len() as int), c),
        decreases s@.len() - b,
    {
        assert(s@.subrange(b as int, s@.len() as int).drop_first() =~= s@.subrange(b + 1, s@.len() as int));
        b += 1;
    }
    slice_to_vec(s, b, s.len())
}

/// `s` without its trailing run of `c`.
pub fn strip_trail_chars(s: &[char], c: char) -> (r: Vec<char>)
    ensures
        r@ == strip_trail(s@, c),
{
    let mut e: usize = s.len();
    assert(s@.subrange(0, s@.len() as int) =~= s@);
    while e > 0 && s[e - 1] == c
        invariant
            e <= s@.len(),
            strip_trail(s@, c) == strip_trail(s@.subrange(0, e as int), c),
        decreases e,
    {
        assert(s@.subrange(0, e as int).drop_last() =~= s@.subrange(0, e - 1));
        e -= 1;
    }
    slice_to_vec(s, 0, e)
}

/// See [`unwrap_delimited`].
pub fn unwrap_delimited_chars(s: &str, open: char, close: char) -> (r: Vec<char>)
    ensures
        r@ == unwrap_delimited(s@, open, close),
{
    let cs = chars_of(s);
    let t = trim_chars(&cs);
    let a = strip_lead_chars(&t, open);
    let b = strip_trail_chars(&a, close);
    trim_chars(&b)
}

/// `s` with every `-` shown as U+2212 MINUS SIGN.
pub open spec fn minus_signs(s: Seq<char>) -> Seq<char> {
    s.map_values(|c: char| if c == '-' { '\u{2212}' } else { c })
}

/// See [`minus_signs`].
pub fn with_minus_signs(s: &[char]) -> (r: String)
    ensures
        r@ == minus_signs(s@),
{
    let mut v: Vec<char> = Vec::new();
    let mut i: usize = 0;
    while i < s.len()
        invariant
            i <= s@.len(),
            v@ == minus_signs(s@.subrange(0, i as int)),
        decreases s@.len() - i,
    {
        let c = s[i];
        v.push(if c == '-' { '\u{2212}' } else { c });
        i += 1;
        assert(v@ =~= minus_signs(s@.subrange(0, i as int)));
    }
    assert(s@.subrange(0, s@.len() as int) =~= s@);
    string_from_chars(&v)
}

/// Decimal digits grouped in threes with `,` (`1234567` → `1,234,567`).
pub open spec fn with_commas(d: Seq<char>) -> Seq<char>
    decreases d.len(),
{
    if d.len() <= 3 {
        d
    } else {
        with_commas(d.subrange(0, d.len() - 3)) + seq![','] + d.subrange(d.len() - 3, d.len() as int)
    }
}

fn push_commas(d: &Vec<char>, len: usize, out: &mut Vec<char>)
    requires
        len <= d@.len(),
    ensures
        final(out)@ == old(out)@ + with_commas(d@.subrange(0, len as int)),
    decreases len,
{
    let ghost pre = d@.subrange(0, len as int);
    if len <= 3 {
        let mut i: usize = 0;
        while i < len
            invariant
                i <= len,
                len <= d@.len(),
                out@ == old(out)@ + d@.subrange(0, i as int),
            decreases len - i,
        {
            out.push(d[i]);
            i += 1;
            assert(out@ =~= old(out)@ + d@.subrange(0, i as int));
        }
    } else {
        push_commas(d, len - 3, out);
        assert(pre.subrange(0, pre.len() - 3) =~= d@.subrange(0, len - 3));
        let ghost mid = out@;
        out.push(',');
        out.push(d[len - 3]);
        out.push(d[len - 2]);
        out.push(d[len - 1]);
        assert(out@ =~= mid + seq![','] + pre.subrange(pre.len() - 3, pre.len() as int));
    }
}

/// The decimal form of `n` with thousands separators.
pub fn number_with_commas(n: u128) -> (s: String)
    ensures
        s@ == with_commas(nat_digits(n as nat)),
{
    let mut d: Vec<char> = Vec::new();
    push_digits(&mut d, n);
    assert(d@ =~= nat_digits(n as nat));
    let mut out: Vec<char> = Vec::new();
    push_commas(&d, d.len(), &mut out);
    assert(d@.subrange(0, d@.len() as int) =~= d@);
    assert(out@ =~= with_commas(nat_digits(n as nat)));
    string_from_chars(&out)
}

} // verus!

verus! {

/// `s` split at every `sep` (as `str::split`): always at least one piece.
pub open spec fn split_on(s: Seq<char>, sep: char) -> Seq<Seq<char>>
    decreases s.len(),
{
    if s.len() == 0 {
        seq![Seq::empty()]
    } else {
        let prev = split_on(s.drop_last(), sep);
        if s.last() == sep {
            prev.push(Seq::empty())
        } else {
            prev.update(prev.len() - 1, prev.last().push(s.last()))
        }
    }
}

pub proof fn lemma_split_on_len(s: Seq<char>, sep: char)
    ensures
        split_on(s, sep).len() >= 1,
    decreases s.len(),
{
    if s.len() > 0 {
        lemma_split_on_len(s.drop_last(), sep);
    }
}

/// Appending text without a separator extends the last piece.
pub proof fn lemma_split_append_plain(a: Seq<char>, b: Seq<char>, sep: char)
    requires
        !b.contains(sep),
    ensures
        split_on(a + b, sep) == split_on(a, sep).update(split_on(a, sep).len() - 1, split_on(a, sep).last() + b),
    decreases b.len(),
{
    lemma_split_on_len(a, sep);
    if b.len() == 0 {
        assert(a + b =~= a);
        assert(split_on(a, sep).last() + b =~= split_on(a, sep).last());
        assert(split_on(a, sep).update(split_on(a, sep).len() - 1, split_on(a, sep).last()) =~= split_on(a, sep));
    } else {
        let b1 = b.drop_last();
        assert(!b1.contains(sep)) by {
            if b1.contains(sep) {
                let k = choose|k: int| 0 <= k < b1.len() && b1[k] == sep;
                assert(b[k] == sep);
            }
        }
        assert(b.last() != sep) by {
            assert(b[b.len() - 1] == b.last());
        }
        lemma_split_append_plain(a, b1, sep);
        assert((a + b).drop_last() =~= a + b1);
        assert((a + b).last() == b.last());
        let p = split_on(a, sep);
        let q = split_on(a + b1, sep);
        assert(q.len() == p.len());
        assert(q.last() == p.last() + b1);
        assert(p.last() + b1 + seq![b.last()] =~= p.last() + b);
        assert((p.last() + b1).push(b.last()) =~= p.last() + b);
        assert(split_on(a + b, sep) == q.update(q.len() - 1, q.last().push((a + b).last())));
        assert(q.update(q.len() - 1, q.last().push(b.last())) =~= p.update(p.len() - 1, p.last() + b));
    }
}

/// Splitting pieces joined by a separator none of them holds gives the
/// pieces back.
pub proof fn lemma_split_join(parts: Seq<Seq<char>>, sep: char)
    requires
        parts.len() >= 1,
        forall|i: int| 0 <= i < parts.len() ==> !(#[trigger] parts[i]).contains(sep),
    ensures
        split_on(crate::sector_writer::join_with(parts, sep), sep) == parts,
    decreases parts.len(),
{
    if parts.len() == 1 {
        lemma_split_append_plain(Seq::empty(), parts[0], sep);
        assert(Seq::<char>::empty() + parts[0] =~= parts[0]);
        assert(split_on(Seq::<char>::empty(), sep) == seq![Seq::<char>::empty()]);
        assert(seq![Seq::<char>::empty()].update(0, Seq::<char>::empty() + parts[0]) =~= parts);
    } else {
        let prev = parts.drop_last();
        lemma_split_join(prev, sep);
        let j = crate::sector_writer::join_with(prev, sep);
        let js = j + seq![sep];
        assert(js.drop_last() =~= j);
        assert(js.last() == sep);
        assert(split_on(js, sep) == prev.push(Seq::<char>::empty()));
        lemma_split_append_plain(js, parts.last(), sep);
        assert(Seq::<char>::empty() + parts.last() =~= parts.last());
        assert(prev.push(Seq::<char>::empty()).update(prev.len() as int, parts.last()) =~= parts);
    }
}

/// The pieces of `s` between the separators `sep`.
pub fn split_chars(s: &[char], sep: char) -> (r: Vec<Vec<char>>)
    ensures
        r@.map_values(|v: Vec<char>| v@) == split_on(s@, sep),
{
    let mut out: Vec<Vec<char>> = Vec::new();
    let mut cur: Vec<char> = Vec::new();
    let mut i: usize = 0;
    assert(s@.subrange(0, 0) =~= Seq::<char>::empty());
    assert(out@.map_values(|v: Vec<char>| v@).push(cur@) =~= split_on(s@.subrange(0, 0), sep));
    while i < s.len()
        invariant
            i <= s@.len(),
            out@.map_values(|v: Vec<char>| v@).push(cur@) == split_on(s@.subrange(0, i as int), sep),
        decreases s@.len() - i,
    {
        let ghost pre = s@.subrange(0, i as int);
        let ghost nxt = s@.subrange(0, i + 1);
        assert(nxt.drop_last() =~= pre);
        proof { lemma_split_on_len(pre, sep); }
        let ghost before = out@.map_values(|v: Vec<char>| v@);
        let ghost cur_before = cur@;
        if s[i] == sep {
            let done = cur;
            cur = Vec::new();
            out.push(done);
            assert(out@.map_values(|v: Vec<char>| v@) =~= before.push(cur_before));
            assert(out@.map_values(|v: Vec<char>| v@).push(cur@) =~= split_on(nxt, sep));
        } else {
            cur.push(s[i]);
            assert(out@.map_values(|v: Vec<char>| v@).push(cur@) =~= before.push(cur_before).update(before.len() as int, cur_before.push(s@[i as int])));
        }
        i += 1;
    }
    assert(s@.subrange(0, s@.len() as int) =~= s@);
    let ghost before = out@.map_values(|v: Vec<char>| v@);
    out.push(cur);
    assert(out@.map_values(|v: Vec<char>| v@) =~= before.push(cur@));
    out
}

} // verus!

verus! {

/// Append the characters of `s`.
pub fn push_str_chars(out: &mut Vec<char>, s: &str)
    ensures
        final(out)@ == old(out)@ + s@,
{
    let cs = chars_of(s);
    let mut i: usize = 0;
    while i < cs.len()
        invariant
            i <= cs@.len(),
            cs@ == s@,
            out@ == old(out)@ + cs@.subrange(0, i as int),
        decreases cs@.len() - i,
    {
        out.push(cs[i]);
        i += 1;
        assert(out@ =~= old(out)@ + cs@.subrange(0, i as int));
    }
    assert(cs@.subrange(0, cs@.len() as int) =~= cs@);
}

/// `a` followed by `b`.
pub fn cat(a: &str, b: &str) -> (r: String)
    ensures
        r@ == a@ + b@,
{
    let mut v: Vec<char> = Vec::new();
    push_str_chars(&mut v, a);
    push_str_chars(&mut v, b);
    assert(v@ =~= a@ + b@);
    string_from_chars(&v)
}

} // verus!

verus! {

/// A line without the `\r` of a `\r\n` ending.
pub open spec fn strip_cr(l: Seq<char>) -> Seq<char> {
    if l.len() > 0 && l.last() == '\r' { l.drop_last() } else { l }
}

/// The lines of `s`, as `str::lines` gives them: split at `\n`, a `\r`
/// before the `\n` dropped, and no empty last line after a final `\n`.
pub open spec fn text_lines(s: Seq<char>) -> Seq<Seq<char>> {
    let p = split_on(s, '\n');
    if s.len() == 0 {
        Seq::empty()
    } else if s.last() == '\n' {
        p.drop_last().map_values(|l: Seq<char>| strip_cr(l))
    } else {
        p.drop_last().map_values(|l: Seq<char>| strip_cr(l)).push(p.last())
    }
}

/// `s.lines()`, as character vectors.
pub fn lines_of(s: &str) -> (r: Vec<Vec<char>>)
    ensures
        r@.map_values(|v: Vec<char>| v@) == text_lines(s@),
{
    let cs = chars_of(s);
    let pieces = split_chars(&cs, '\n');
    proof { lemma_split_on_len(s@, '\n'); }
    let ghost pv = pieces@.map_values(|v: Vec<char>| v@);
    let mut out: Vec<Vec<char>> = Vec::new();
    if cs.len() == 0 {
        assert(out@.map_values(|v: Vec<char>| v@) =~= text_lines(s@));
        return out;
    }
    let n = pieces.len() - 1;
    let mut i: usize = 0;
    while i < n
        invariant
            i <= n,
            n + 1 == pieces@.len(),
            pv == pieces@.map_values(|v: Vec<char>| v@),
            out@.map_values(|v: Vec<char>| v@) == pv.subrange(0, i as int).map_values(|l: Seq<char>| strip_cr(l)),
        decreases n - i,
    {
        let p = &pieces[i];
        let line = if p.len() > 0 && p[p.len() - 1] == '\r' { slice_to_vec(p, 0, p.len() - 1) } else { slice_to_vec(p, 0, p.len()) };
        assert(p@.subrange(0, p@.len() as int) =~= p@);
        assert(p@.len() > 0 ==> p@.subrange(0, p@.len() - 1) =~= p@.drop_last());
        assert(line@ == strip_cr(pv[i as int]));
        let ghost before = out@.map_values(|v: Vec<char>| v@);
        out.push(line);
        assert(out@.map_values(|v: Vec<char>| v@) =~= before.push(strip_cr(pv[i as int])));
        assert(pv.subrange(0, i + 1).map_values(|l: Seq<char>| strip_cr(l))
            =~= pv.subrange(0, i as int).map_values(|l: Seq<char>| strip_cr(l)).push(strip_cr(pv[i as int])));
        i += 1;
    }
    assert(pv.subrange(0, n as int) =~= pv.drop_last());
    if cs[cs.len() - 1] != '\n' {
        let last = slice_to_vec(&pieces[n], 0, pieces[n].len());
        assert(pieces@[n as int]@.subrange(0, pieces@[n as int]@.len() as int) =~= pieces@[n as int]@);
        let ghost before = out@.map_values(|v: Vec<char>| v@);
        out.push(last);
        assert(out@.map_values(|v: Vec<char>| v@) =~= before.push(pv.last()));
    }
    out
}

} // verus!
