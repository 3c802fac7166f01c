//! The integer side of the macro overlays' vector paths: the GDI+ point-type
//! bytes (stored base64-encoded) and how they cut a flat point list into
//! sub-paths.
use vstd::prelude::*;

use base64::Engine;

use crate::text::is_ws;

verus! {

/// What `base64::engine::general_purpose::STANDARD.decode` makes of the text
/// `s` (its UTF-8 bytes): the decoded bytes, or `None` for an error.
pub uninterp spec fn standard_base64_decoded(s: Seq<char>) -> Option<Seq<u8>>;

pub open spec fn opt_bytes(o: Option<Vec<u8>>) -> Option<Seq<u8>> {
    match o {
        Some(v) => Some(v@),
        None => None,
    }
}

/// Decodes `s` with the standard base64 alphabet and padding
/// (`base64::engine::general_purpose::STANDARD.decode`); an error becomes
/// `None`. The result is [`standard_base64_decoded`] of the text.
#[verifier::external_body]
fn base64_decode(s: &str) -> (r: Option<Vec<u8>>)
    ensures
        opt_bytes(r) == standard_base64_decoded(s@),
{
    base64::engine::general_purpose::STANDARD.decode(s).ok()
}

/// `s` without its whitespace.
pub open spec fn without_ws(s: Seq<char>) -> Seq<char>
    decreases s.len(),
{
    if s.len() == 0 {
        Seq::empty()
    } else {
        without_ws(s.drop_last()) + if is_ws(s.last()) { Seq::empty() } else { seq![s.last()] }
    }
}

/// The point-type bytes of a `PathDataTypes` text: the base64 text with its
/// whitespace removed, decoded; nothing when it does not decode.
pub open spec fn type_bytes_of(text: Seq<char>) -> Seq<u8> {
    match standard_base64_decoded(without_ws(text)) {
        Some(b) => b,
        None => Seq::empty(),
    }
}

/// The point-type bytes of a `PathDataTypes` text.
pub fn path_type_bytes(text: &str) -> (r: Vec<u8>)
    ensures
        r@ == type_bytes_of(text@),
{
    let cs = crate::text::chars_of(text);
    let mut kept: Vec<char> = Vec::new();
    let mut i: usize = 0;
    while i < cs.len()
        invariant
            i <= cs@.len(),
            cs@ == text@,
            kept@ == without_ws(cs@.take(i as int)),
        decreases cs@.len() - i,
    {
        assert(cs@.take(i + 1).drop_last() =~= cs@.take(i as int));
        if !crate::text::is_whitespace(cs[i]) {
            kept.push(cs[i]);
        }
        proof {
            let t = cs@.take(i + 1);
            assert(t.last() == cs@[i as int]);
            if is_ws(cs@[i as int]) {
                assert(without_ws(t) =~= without_ws(cs@.take(i as int)));
            } else {
                assert(without_ws(t) =~= without_ws(cs@.take(i as int)).push(cs@[i as int]));
            }
        }
        i += 1;
    }
    assert(cs@.take(cs@.len() as int) =~= cs@);
    let s = crate::text::string_from_chars(&kept);
    match base64_decode(s.as_str()) {
        Some(b) => b,
        None => Vec::new(),
    }
}

/// The type of point `i`: its byte, or a plain line segment (1) past the end
/// of the bytes.
pub open spec fn type_at(types: Seq<u8>, i: int) -> u8 {
    if i < types.len() { types[i] } else { 1u8 }
}

/// A `Start` point (low three bits 0) begins a new sub-path.
pub open spec fn starts_path(t: u8) -> bool {
    t % 8 == 0
}

/// A `CloseSubpath` point (flag 0x80) closes its sub-path.
pub open spec fn closes_path(t: u8) -> bool {
    t >= 128
}

/// After the first `i` points: the finished sub-paths (`start`, `end`,
/// closed), where the current one starts, and whether it is closed.
pub open spec fn split_upto(types: Seq<u8>, i: int) -> (Seq<(int, int, bool)>, int, bool)
    decreases i,
{
    if i <= 0 {
        (Seq::empty(), 0, false)
    } else {
        let (done, cs, cl) = split_upto(types, i - 1);
        let t = type_at(types, i - 1);
        let (done2, cs2, cl2) = if starts_path(t) && i - 1 > cs {
            (done.push((cs, i - 1, cl)), i - 1, false)
        } else {
            (done, cs, cl)
        };
        (done2, cs2, if closes_path(t) { true } else { cl2 })
    }
}

/// The sub-paths of `n` points with point types `types`, as index ranges
/// `[start, end)` with their closed flags.
pub open spec fn spans_of(types: Seq<u8>, n: int) -> Seq<(int, int, bool)> {
    let (done, cs, cl) = split_upto(types, n);
    if n > cs { done.push((cs, n, cl)) } else { done }
}

/// One sub-path: points `start..end` of the list, and whether it is closed.
#[derive(Debug, Clone, Copy, PartialEq, Eq)]
pub struct PathSpan {
    pub start: usize,
    pub end: usize,
    pub closed: bool,
}

pub open spec fn span_views(v: Seq<PathSpan>) -> Seq<(int, int, bool)> {
    v.map_values(|s: PathSpan| (s.start as int, s.end as int, s.closed))
}

/// Cut `n` points into sub-paths by their type bytes: a `Start` point begins
/// a new sub-path (unless the current one is still empty), a `CloseSubpath`
/// point closes the one it ends; points past the bytes are plain lines, so
/// with no type data all the points make one open sub-path.
pub fn subpath_spans(types: &Vec<u8>, n: usize) -> (r: Vec<PathSpan>)
    ensures
        span_views(r@) == spans_of(types@, n as int),
{
    let mut done: Vec<PathSpan> = Vec::new();
    let mut cs: usize = 0;
    let mut cl: bool = false;
    let mut i: usize = 0;
    while i < n
        invariant
            i <= n,
            cs <= i,
            span_views(done@) == split_upto(types@, i as int).0,
            cs as int == split_upto(types@, i as int).1,
            cl == split_upto(types@, i as int).2,
        decreases n - i,
    {
        let t: u8 = if i < types.len() { types[i] } else { 1u8 };
        assert(t == type_at(types@, i as int));
        if t % 8 == 0 && i > cs {
            let ghost before = done@;
            done.push(PathSpan { start: cs, end: i, closed: cl });
            assert(span_views(done@) =~= span_views(before).push((cs as int, i as int, cl)));
            cs = i;
            cl = false;
        }
        if t >= 128 {
            cl = true;
        }
        i += 1;
    }
    if n > cs {
        let ghost before = done@;
        done.push(PathSpan { start: cs, end: n, closed: cl });
        assert(span_views(done@) =~= span_views(before).push((cs as int, n as int, cl)));
    }
    done
}

/// The finished sub-paths cover `[0, start)` of the current one, in order,
/// each non-empty, and the current one holds at least the last point.
proof fn lemma_split_covers(types: Seq<u8>, i: int)
    requires
        i >= 0,
    ensures
        ({
            let (done, cs, cl) = split_upto(types, i);
            &&& 0 <= cs <= i
            &&& (i > 0 ==> cs < i)
            &&& (done.len() == 0 ==> cs == 0)
            &&& (done.len() > 0 ==> done[0].0 == 0 && done.last().1 == cs)
            &&& forall|k: int| 0 <= k < done.len() ==> (#[trigger] done[k]).0 < done[k].1
            &&& forall|k: int| 0 <= k < done.len() - 1 ==> (#[trigger] done[k]).1 == done[k + 1].0
        }),
    decreases i,
{
    if i > 0 {
        lemma_split_covers(types, i - 1);
    }
}

/// The sub-paths of `n > 0` points cover them all, in order and without
/// gaps: the first starts at point 0, each ends where the next starts, the
/// last ends at `n`, and none is empty. No points make no sub-paths.
pub proof fn law_spans_cover(types: Seq<u8>, n: int)
    requires
        n >= 0,
    ensures
        n == 0 ==> spans_of(types, n).len() == 0,
        n > 0 ==> spans_of(types, n).len() > 0,
        n > 0 ==> spans_of(types, n)[0].0 == 0,
        n > 0 ==> spans_of(types, n).last().1 == n,
        forall|k: int| 0 <= k < spans_of(types, n).len() ==> (#[trigger] spans_of(types, n)[k]).0 < spans_of(types, n)[k].1,
        forall|k: int| 0 <= k < spans_of(types, n).len() - 1 ==> (#[trigger] spans_of(types, n)[k]).1 == spans_of(types, n)[k + 1].0,
{
    lemma_split_covers(types, n);
    let (done, cs, cl) = split_upto(types, n);
    if n > 0 {
        let s = done.push((cs, n, cl));
        assert forall|k: int| 0 <= k < s.len() - 1 implies (#[trigger] s[k]).1 == s[k + 1].0 by {
            if k < done.len() - 1 {
                assert(s[k] == done[k] && s[k + 1] == done[k + 1]);
            } else {
                assert(s[k] == done.last());
            }
        }
    }
}

} // verus!
