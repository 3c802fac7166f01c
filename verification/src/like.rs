//! SQL-Server `LIKE` matching and American `SOUNDEX`, the two string
//! primitives of the search language.
use vstd::prelude::*;

use crate::text::{chars_of, string_from_chars};

verus! {

/// Scan the body of a `[...]` class from `i`: `first` is set while no member has
/// been read (a `]` there is a literal member), `matched` records whether `ch`
/// hit a member so far. Returns the match flag and the index after the closing
/// `]`, or `None` when the class never closes.
pub open spec fn class_scan(p: Seq<char>, i: int, ch: char, first: bool, matched: bool) -> Option<(bool, int)>
    decreases p.len() - i,
{
    if i >= p.len() || i < 0 {
        None
    } else if p[i] == ']' && !first {
        Some((matched, i + 1))
    } else if i + 2 < p.len() && p[i + 1] == '-' && p[i + 2] != ']' {
        class_scan(p, i + 3, ch, false, matched || (p[i] <= ch && ch <= p[i + 2]))
    } else {
        class_scan(p, i + 1, ch, false, matched || p[i] == ch)
    }
}

/// The `[...]` class that starts at `p[start]` (a `[`), tested against `ch`:
/// `Some((hit, next))` with `next` the index after the class, or `None` when
/// the class is malformed (no closing `]`). A leading `^` negates the class.
pub open spec fn spec_match_class(p: Seq<char>, start: int, ch: char) -> Option<(bool, int)> {
    let i = start + 1;
    let negate = i < p.len() && p[i] == '^';
    let j = if negate { i + 1 } else { i };
    match class_scan(p, j, ch, true, false) {
        Some((m, n)) => Some((m != negate, n)),
        None => None,
    }
}

/// One single-character pattern token at `p[pi]` (not `%`) against `c`: whether
/// it matches and where the next token starts.
pub open spec fn token_step(p: Seq<char>, pi: int, c: char) -> (bool, int) {
    if p[pi] == '_' {
        (true, pi + 1)
    } else if p[pi] == '[' {
        match spec_match_class(p, pi, c) {
            Some((m, n)) => (m, n),
            None => (c == '[', pi + 1),
        }
    } else {
        (c == p[pi], pi + 1)
    }
}

pub proof fn lemma_class_scan_advances(p: Seq<char>, i: int, ch: char, first: bool, matched: bool)
    ensures
        class_scan(p, i, ch, first, matched) matches Some((_, n)) ==> i < n <= p.len(),
    decreases p.len() - i,
{
    if i >= p.len() || i < 0 {
    } else if p[i] == ']' && !first {
    } else if i + 2 < p.len() && p[i + 1] == '-' && p[i + 2] != ']' {
        lemma_class_scan_advances(p, i + 3, ch, false, matched || (p[i] <= ch && ch <= p[i + 2]));
    } else {
        lemma_class_scan_advances(p, i + 1, ch, false, matched || p[i] == ch);
    }
}

pub proof fn lemma_token_step_advances(p: Seq<char>, pi: int, c: char)
    requires
        0 <= pi < p.len(),
    ensures
        pi < token_step(p, pi, c).1 <= p.len(),
{
    let i = pi + 1;
    let negate = i < p.len() && p[i] == '^';
    let j = if negate { i + 1 } else { i };
    lemma_class_scan_advances(p, j, c, true, false);
}

/// Does `t[ti..]` match the pattern `p[pi..]`? `%` matches any run of
/// characters, every other token matches exactly one character.
pub open spec fn like_at(p: Seq<char>, pi: int, t: Seq<char>, ti: int) -> bool
    decreases p.len() - pi, t.len() - ti,
{
    if pi < 0 || ti < 0 || pi > p.len() || ti > t.len() {
        false
    } else if pi == p.len() {
        ti == t.len()
    } else if p[pi] == '%' {
        like_at(p, pi + 1, t, ti) || (ti < t.len() && like_at(p, pi, t, ti + 1))
    } else if ti == t.len() {
        false
    } else {
        let (ok, next) = token_step(p, pi, t[ti]);
        proof { lemma_token_step_advances(p, pi, t[ti]); }
        ok && like_at(p, next, t, ti + 1)
    }
}

/// SQL-Server `LIKE`: the whole of `t` matches the whole of `p`.
pub open spec fn spec_like(p: Seq<char>, t: Seq<char>) -> bool {
    like_at(p, 0, t, 0)
}

/// Match the `[...]` class starting at `p[start]` against `ch`.
fn match_class(p: &[char], start: usize, ch: char) -> (r: Option<(bool, usize)>)
    requires
        start < p@.len(),
        p@.len() < usize::MAX - 3,
    ensures
        match r {
            Some((m, n)) => spec_match_class(p@, start as int, ch) == Some((m, n as int)),
            None => spec_match_class(p@, start as int, ch) is None,
        },
{
    let mut i = start + 1;
    let negate = i < p.len() && p[i] == '^';
    if negate {
        i += 1;
    }
    let ghost j = i as int;
    let mut matched = false;
    let mut first = true;
    while i < p.len()
        invariant
            i <= p@.len() + 1,
            p@.len() < usize::MAX - 3,
            negate == (start + 1 < p@.len() && p@[start + 1] == '^'),
            j == (if negate { start + 2 } else { start + 1 }),
            j <= i,
            class_scan(p@, j, ch, true, false) == class_scan(p@, i as int, ch, first, matched),
        decreases p@.len() - i,
    {
        if p[i] == ']' && !first {
            assert(class_scan(p@, i as int, ch, first, matched) == Some((matched, i + 1)));
            return Some((matched != negate, i + 1));
        }
        first = false;
        if i + 2 < p.len() && p[i + 1] == '-' && p[i + 2] != ']' {
            let (lo, hi) = (p[i], p[i + 2]);
            if lo <= ch && ch <= hi {
                matched = true;
            }
            i += 3;
        } else {
            if p[i] == ch {
                matched = true;
            }
            i += 1;
        }
    }
    None
}

/// One token step in executable form.
fn step(p: &[char], pi: usize, c: char) -> (r: (bool, usize))
    requires
        pi < p@.len(),
        p@.len() < usize::MAX - 3,
        p@[pi as int] != '%',
    ensures
        r.0 == token_step(p@, pi as int, c).0,
        r.1 as int == token_step(p@, pi as int, c).1,
{
    if p[pi] == '_' {
        (true, pi + 1)
    } else if p[pi] == '[' {
        match match_class(p, pi, c) {
            Some((m, n)) => (m, n),
            None => (c == '[', pi + 1),
        }
    } else {
        (c == p[pi], pi + 1)
    }
}

/// `LIKE` over character slices, by dynamic programming over (pattern, text)
/// positions: row `k` of the table holds `like_at(p, plen - k, t, ·)`.
pub fn like_chars(p: &[char], t: &[char]) -> (b: bool)
    requires
        p@.len() < usize::MAX - 3,
        t@.len() < usize::MAX - 3,
    ensures
        b == spec_like(p@, t@),
{
    let plen = p.len();
    let tlen = t.len();
    let mut rows: Vec<Vec<bool>> = Vec::new();
    // Row for pi == plen: only the empty text remainder matches.
    let mut last: Vec<bool> = Vec::new();
    let mut ti: usize = 0;
    while ti <= tlen
        invariant
            ti <= tlen + 1,
            tlen == t@.len(),
            tlen < usize::MAX - 3,
            plen == p@.len(),
            last@.len() == ti,
            forall|k: int| 0 <= k < ti ==> last@[k] == like_at(p@, plen as int, t@, k),
        decreases tlen + 1 - ti,
    {
        last.push(ti == tlen);
        ti += 1;
    }
    rows.push(last);
    let mut pi: usize = plen;
    while pi > 0
        invariant
            pi <= plen,
            tlen == t@.len(),
            plen == p@.len(),
            tlen < usize::MAX - 3,
            plen < usize::MAX - 3,
            rows@.len() == plen - pi + 1,
            forall|k: int| 0 <= k < rows@.len() ==> #[trigger] rows@[k]@.len() == tlen + 1,
            forall|k: int, x: int|
                0 <= k < rows@.len() && 0 <= x <= tlen ==> #[trigger] rows@[k]@[x] == like_at(p@, plen - k, t@, x),
        decreases pi,
    {
        pi -= 1;
        // Fill the row for `pi`, from the end of the text backwards.
        let mut row: Vec<bool> = Vec::new();
        let mut k: usize = 0;
        while k <= tlen
            invariant
                k <= tlen + 1,
                tlen < usize::MAX - 3,
                row@.len() == k,
            decreases tlen + 1 - k,
        {
            row.push(false);
            k += 1;
        }
        let mut x: usize = tlen + 1;
        while x > 0
            invariant
                x <= tlen + 1,
                pi < plen,
                tlen == t@.len(),
                plen == p@.len(),
                tlen < usize::MAX - 3,
                plen < usize::MAX - 3,
                row@.len() == tlen + 1,
                rows@.len() == plen - pi,
                forall|k: int| 0 <= k < rows@.len() ==> #[trigger] rows@[k]@.len() == tlen + 1,
                forall|k: int, y: int|
                    0 <= k < rows@.len() && 0 <= y <= tlen ==> #[trigger] rows@[k]@[y] == like_at(p@, plen - k, t@, y),
                forall|y: int| x <= y <= tlen ==> #[trigger] row@[y] == like_at(p@, pi as int, t@, y),
            decreases x,
        {
            x -= 1;
            let v: bool;
            if p[pi] == '%' {
                let below = rows[plen - pi - 1][x];
                assert(below == like_at(p@, pi + 1, t@, x as int));
                let right = x < tlen && row[x + 1];
                v = below || right;
            } else if x == tlen {
                v = false;
            } else {
                let (ok, next) = step(p, pi, t[x]);
                proof { lemma_token_step_advances(p@, pi as int, t@[x as int]); }
                if ok {
                    let r = &rows[plen - next];
                    assert(r@[x + 1] == like_at(p@, next as int, t@, x + 1));
                    v = r[x + 1];
                } else {
                    v = false;
                }
            }
            row.set(x, v);
        }
        rows.push(row);
    }
    rows[plen][0]
}

/// SQL-Server `LIKE`: `%` matches any run of characters, `_` exactly one,
/// `[...]` a character class (ranges `a-z`, negation `[^...]`; a class with no
/// closing `]` makes its `[` a literal), anything else itself. The match is
/// anchored to the whole text.
pub fn like_match(pattern: &str, text: &str) -> (b: bool)
    requires
        pattern@.len() < usize::MAX - 3,
        text@.len() < usize::MAX - 3,
    ensures
        b == spec_like(pattern@, text@),
{
    let p = chars_of(pattern);
    let t = chars_of(text);
    like_chars(&p, &t)
}

// ── SOUNDEX ─────────────────────────────────────────────────────────────────

pub open spec fn is_ascii_alpha(c: char) -> bool {
    ('a' <= c && c <= 'z') || ('A' <= c && c <= 'Z')
}

pub open spec fn alpha_pred() -> spec_fn(char) -> bool {
    |c: char| is_ascii_alpha(c)
}

pub open spec fn ascii_lower(c: char) -> char {
    if 'A' <= c && c <= 'Z' { ((c as int) + 32) as char } else { c }
}

pub open spec fn ascii_upper(c: char) -> char {
    if 'a' <= c && c <= 'z' { ((c as int) - 32) as char } else { c }
}

/// The SOUNDEX digit of a letter, or `None` for vowels, `h`, `w`, `y`.
pub open spec fn sdx_code(c: char) -> Option<char> {
    let l = ascii_lower(c);
    if l == 'b' || l == 'f' || l == 'p' || l == 'v' {
        Some('1')
    } else if l == 'c' || l == 'g' || l == 'j' || l == 'k' || l == 'q' || l == 's' || l == 'x' || l == 'z' {
        Some('2')
    } else if l == 'd' || l == 't' {
        Some('3')
    } else if l == 'l' {
        Some('4')
    } else if l == 'm' || l == 'n' {
        Some('5')
    } else if l == 'r' {
        Some('6')
    } else {
        None
    }
}

/// The digits SOUNDEX emits for `rest` when the previous coded letter had code
/// `last`: a coded letter emits its digit unless it repeats `last`; vowels
/// clear `last`; `h` and `w` leave it alone.
pub open spec fn sdx_digits(rest: Seq<char>, last: Option<char>) -> Seq<char>
    decreases rest.len(),
{
    if rest.len() == 0 {
        Seq::empty()
    } else {
        let c = rest[0];
        match sdx_code(c) {
            Some(d) => (if Some(d) != last { seq![d] } else { Seq::empty() }) + sdx_digits(rest.drop_first(), Some(d)),
            None => sdx_digits(
                rest.drop_first(),
                if ascii_lower(c) != 'h' && ascii_lower(c) != 'w' { None } else { last },
            ),
        }
    }
}

/// Right-pad with `'0'` to length 3, after keeping at most 3 digits.
pub open spec fn pad3(d: Seq<char>) -> Seq<char> {
    let k = if d.len() > 3 { d.take(3) } else { d };
    k + Seq::new((3 - k.len()) as nat, |i: int| '0')
}

/// American SOUNDEX with SQL-Server semantics: the first letter (upper-cased)
/// and three digits; non-letters are ignored; no letters gives `"0000"`.
pub open spec fn spec_soundex(s: Seq<char>) -> Seq<char> {
    let letters = s.filter(alpha_pred());
    if letters.len() == 0 {
        seq!['0', '0', '0', '0']
    } else {
        seq![ascii_upper(letters[0])] + pad3(sdx_digits(letters.drop_first(), sdx_code(letters[0])))
    }
}

proof fn lemma_sdx_digits_range(rest: Seq<char>, last: Option<char>)
    ensures
        forall|i: int| 0 <= i < sdx_digits(rest, last).len() ==> '1' <= #[trigger] sdx_digits(rest, last)[i] <= '6',
    decreases rest.len(),
{
    if rest.len() > 0 {
        let c = rest[0];
        match sdx_code(c) {
            Some(d) => {
                lemma_sdx_digits_range(rest.drop_first(), Some(d));
                let head: Seq<char> = if Some(d) != last { seq![d] } else { Seq::empty() };
                let tail = sdx_digits(rest.drop_first(), Some(d));
                assert('1' <= d <= '6');
                assert(sdx_digits(rest, last) == head + tail);
                assert forall|i: int| 0 <= i < (head + tail).len() implies '1' <= #[trigger] (head + tail)[i] <= '6' by {
                    if i < head.len() {
                        assert((head + tail)[i] == d);
                    } else {
                        assert((head + tail)[i] == tail[i - head.len()]);
                    }
                }
            },
            None => {
                let x = if ascii_lower(c) != 'h' && ascii_lower(c) != 'w' { None } else { last };
                lemma_sdx_digits_range(rest.drop_first(), x);
                assert(sdx_digits(rest, last) == sdx_digits(rest.drop_first(), x));
            },
        }
    }
}

/// A SOUNDEX code is four characters: `0000` for a text without ASCII
/// letters, else the first letter upper-cased and three characters that are
/// digits `1`–`6` followed only by `0` padding.
pub proof fn law_soundex_shape(s: Seq<char>)
    ensures
        spec_soundex(s).len() == 4,
        s.filter(alpha_pred()).len() == 0 ==> spec_soundex(s) == seq!['0', '0', '0', '0'],
        s.filter(alpha_pred()).len() > 0 ==> 'A' <= spec_soundex(s)[0] <= 'Z',
        forall|i: int| 1 <= i < 4 ==> ('1' <= #[trigger] spec_soundex(s)[i] <= '6' || spec_soundex(s)[i] == '0'),
        forall|i: int, j: int| 1 <= i < j < 4 && #[trigger] spec_soundex(s)[i] == '0' ==> #[trigger] spec_soundex(s)[j] == '0',
{
    let letters = s.filter(alpha_pred());
    if letters.len() > 0 {
        let c = letters[0];
        assert(is_ascii_alpha(c)) by {
            s.lemma_filter_pred(alpha_pred(), 0);
        }
        let d = sdx_digits(letters.drop_first(), sdx_code(c));
        lemma_sdx_digits_range(letters.drop_first(), sdx_code(c));
        let k = if d.len() > 3 { d.take(3) } else { d };
        let p = pad3(d);
        assert(p.len() == 3);
        assert forall|i: int| 0 <= i < 3 implies ('1' <= #[trigger] p[i] <= '6' || p[i] == '0')
            && (i >= k.len() ==> p[i] == '0') && (i < k.len() ==> p[i] != '0') by {
            if i < k.len() {
                assert(p[i] == k[i] && k[i] == d[i]);
            }
        }
        let r = spec_soundex(s);
        assert(r == seq![ascii_upper(c)] + p);
        assert forall|i: int| 1 <= i < 4 implies r[i] == p[i - 1] by {}
    }
}

proof fn lemma_lower_char(c: char)
    ensures
        is_ascii_alpha(ascii_lower(c)) == is_ascii_alpha(c),
        ascii_lower(ascii_lower(c)) == ascii_lower(c),
        is_ascii_alpha(c) ==> ascii_upper(ascii_lower(c)) == ascii_upper(c),
        sdx_code(ascii_lower(c)) == sdx_code(c),
{
    if 'A' <= c && c <= 'Z' {
        let l = ((c as int) + 32) as char;
        assert(l as int == c as int + 32);
        assert('a' <= l && l <= 'z');
        assert(((l as int) - 32) as char == c);
    }
}

/// `s` with its ASCII capitals lowered (`str::to_ascii_lowercase`).
pub open spec fn ascii_lowered(s: Seq<char>) -> Seq<char> {
    s.map_values(|c: char| ascii_lower(c))
}

proof fn lemma_filter_lowered(s: Seq<char>)
    ensures
        ascii_lowered(s).filter(alpha_pred()) == ascii_lowered(s.filter(alpha_pred())),
    decreases s.len(),
{
    reveal(Seq::filter);
    if s.len() == 0 {
        assert(ascii_lowered(s) =~= s);
    } else {
        lemma_filter_lowered(s.drop_last());
        lemma_lower_char(s.last());
        assert(ascii_lowered(s).drop_last() =~= ascii_lowered(s.drop_last()));
        assert(ascii_lowered(s).last() == ascii_lower(s.last()));
        let f = s.drop_last().filter(alpha_pred());
        if is_ascii_alpha(s.last()) {
            assert(ascii_lowered(f.push(s.last())) =~= ascii_lowered(f).push(ascii_lower(s.last())));
        }
    }
}

proof fn lemma_sdx_lowered(rest: Seq<char>, last: Option<char>)
    ensures
        sdx_digits(ascii_lowered(rest), last) == sdx_digits(rest, last),
    decreases rest.len(),
{
    if rest.len() > 0 {
        let c = rest[0];
        lemma_lower_char(c);
        assert(ascii_lowered(rest).drop_first() =~= ascii_lowered(rest.drop_first()));
        assert(ascii_lowered(rest)[0] == ascii_lower(c));
        match sdx_code(c) {
            Some(d) => {
                lemma_sdx_lowered(rest.drop_first(), Some(d));
            },
            None => {
                let x = if ascii_lower(c) != 'h' && ascii_lower(c) != 'w' { None } else { last };
                lemma_sdx_lowered(rest.drop_first(), x);
            },
        }
    }
}

/// SOUNDEX ignores ASCII case.
pub proof fn law_soundex_ignores_case(s: Seq<char>)
    ensures
        spec_soundex(ascii_lowered(s)) == spec_soundex(s),
{
    let letters = s.filter(alpha_pred());
    lemma_filter_lowered(s);
    let ll = ascii_lowered(letters);
    assert(ascii_lowered(s).filter(alpha_pred()) == ll);
    if letters.len() > 0 {
        let c = letters[0];
        assert(is_ascii_alpha(c)) by {
            s.lemma_filter_pred(alpha_pred(), 0);
        }
        lemma_lower_char(c);
        assert(ll[0] == ascii_lower(c));
        assert(ll.drop_first() =~= ascii_lowered(letters.drop_first()));
        lemma_sdx_lowered(letters.drop_first(), sdx_code(c));
    }
}

fn code_of(c: char) -> (r: Option<char>)
    ensures
        r == sdx_code(c),
{
    let l = lower_ascii(c);
    if l == 'b' || l == 'f' || l == 'p' || l == 'v' {
        Some('1')
    } else if l == 'c' || l == 'g' || l == 'j' || l == 'k' || l == 'q' || l == 's' || l == 'x' || l == 'z' {
        Some('2')
    } else if l == 'd' || l == 't' {
        Some('3')
    } else if l == 'l' {
        Some('4')
    } else if l == 'm' || l == 'n' {
        Some('5')
    } else if l == 'r' {
        Some('6')
    } else {
        None
    }
}

pub fn lower_ascii(c: char) -> (r: char)
    ensures
        r == ascii_lower(c),
{
    if 'A' <= c && c <= 'Z' {
        ((c as u8) + 32) as char
    } else {
        c
    }
}

pub fn upper_ascii(c: char) -> (r: char)
    ensures
        r == ascii_upper(c),
{
    if 'a' <= c && c <= 'z' {
        ((c as u8) - 32) as char
    } else {
        c
    }
}

pub fn is_alpha(c: char) -> (b: bool)
    ensures
        b == is_ascii_alpha(c),
{
    ('a' <= c && c <= 'z') || ('A' <= c && c <= 'Z')
}

proof fn lemma_sdx_split(a: Seq<char>, i: int, last: Option<char>)
    requires
        0 <= i < a.len(),
    ensures
        sdx_digits(a.subrange(i, a.len() as int), last) == (match sdx_code(a[i]) {
            Some(d) => (if Some(d) != last { seq![d] } else { Seq::empty() }) + sdx_digits(a.subrange(i + 1, a.len() as int), Some(d)),
            None => sdx_digits(
                a.subrange(i + 1, a.len() as int),
                if ascii_lower(a[i]) != 'h' && ascii_lower(a[i]) != 'w' { None } else { last },
            ),
        }),
{
    assert(a.subrange(i, a.len() as int).drop_first() =~= a.subrange(i + 1, a.len() as int));
}

/// SOUNDEX code of `s` (see [`spec_soundex`]).
pub fn soundex(s: &str) -> (r: String)
    ensures
        r@ == spec_soundex(s@),
{
    let cs = chars_of(s);
    let ghost pred = alpha_pred();
    let mut letters: Vec<char> = Vec::new();
    let mut i: usize = 0;
    while i < cs.len()
        invariant
            i <= cs@.len(),
            cs@ == s@,
            pred == alpha_pred(),
            letters@ == cs@.take(i as int).filter(pred),
        decreases cs@.len() - i,
    {
        assert(cs@.take(i + 1).drop_last() =~= cs@.take(i as int));
        assert(cs@.take(i + 1).last() == cs@[i as int]);
        assert(pred(cs@[i as int]) == is_ascii_alpha(cs@[i as int]));
        let ghost before = cs@.take(i as int).filter(pred);
        proof { reveal_with_fuel(Seq::filter, 1); }
        assert(cs@.take(i + 1).filter(pred) == (if pred(cs@[i as int]) { before.push(cs@[i as int]) } else { before }));
        if is_alpha(cs[i]) {
            letters.push(cs[i]);
        }
        i += 1;
    }
    assert(cs@.take(cs@.len() as int) =~= cs@);
    if letters.len() == 0 {
        let z = vec!['0', '0', '0', '0'];
        assert(z@ =~= seq!['0', '0', '0', '0']);
        return string_from_chars(&z);
    }
    let mut out: Vec<char> = Vec::new();
    out.push(upper_ascii(letters[0]));
    let mut last = code_of(letters[0]);
    let ghost whole = sdx_digits(letters@.drop_first(), sdx_code(letters@[0]));
    let mut j: usize = 1;
    assert(letters@.subrange(1, letters@.len() as int) =~= letters@.drop_first());
    while j < letters.len()
        invariant_except_break
            out@.len() <= 3,
        invariant
            1 <= j <= letters@.len(),
            1 <= out@.len() <= 4,
            out@[0] == ascii_upper(letters@[0]),
            whole == out@.subrange(1, out@.len() as int) + sdx_digits(letters@.subrange(j as int, letters@.len() as int), last),
        ensures
            whole == out@.subrange(1, out@.len() as int) + sdx_digits(letters@.subrange(j as int, letters@.len() as int), last),
            out@.len() == 4 || j == letters@.len(),
            1 <= out@.len() <= 4,
            out@[0] == ascii_upper(letters@[0]),
        decreases letters@.len() - j,
    {
        let c = letters[j];
        proof { lemma_sdx_split(letters@, j as int, last); }
        let ghost old_out = out@;
        match code_of(c) {
            Some(d) => {
                if Some(d) != last {
                    out.push(d);
                    assert(out@.subrange(1, out@.len() as int) =~= old_out.subrange(1, old_out.len() as int) + seq![d]);
                }
                last = Some(d);
                j += 1;
                if out.len() == 4 {
                    break;
                }
            }
            None => {
                let l = lower_ascii(c);
                if l != 'h' && l != 'w' {
                    last = None;
                }
                j += 1;
            }
        }
    }
    let ghost emitted = out@.subrange(1, out@.len() as int);
    while out.len() < 4
        invariant
            1 <= out@.len() <= 4,
            out@[0] == ascii_upper(letters@[0]),
            out@.subrange(1, out@.len() as int) == emitted + Seq::new((out@.len() - 1 - emitted.len()) as nat, |i: int| '0'),
            emitted.len() <= 3,
        decreases 4 - out@.len(),
    {
        let ghost o = out@;
        out.push('0');
        assert(out@.subrange(1, out@.len() as int) =~= o.subrange(1, o.len() as int).push('0'));
        assert(out@.subrange(1, out@.len() as int) =~= emitted + Seq::new((out@.len() - 1 - emitted.len()) as nat, |i: int| '0'));
    }
    proof {
        assert(whole.take(emitted.len() as int) =~= emitted);
        if emitted.len() == 3 {
            assert(whole.take(3) =~= emitted);
        } else {
            assert(j == letters@.len());
            assert(letters@.subrange(j as int, letters@.len() as int) =~= Seq::<char>::empty());
            assert(whole =~= emitted);
        }
        let letters_all = s@.filter(pred);
        assert(letters@ == letters_all);
        assert(pad3(whole) =~= out@.subrange(1, 4));
        assert(out@ =~= seq![out@[0]] + out@.subrange(1, 4));
        assert(letters_all.len() > 0);
        assert(spec_soundex(s@) == seq![ascii_upper(letters_all[0])] + pad3(sdx_digits(letters_all.drop_first(), sdx_code(letters_all[0]))));
        assert(spec_soundex(s@) == seq![ascii_upper(letters@[0])] + pad3(whole));
        assert(out@ =~= spec_soundex(s@));
    }
    string_from_chars(&out)
}

} // verus!
