//! Border colours from a sector's stylesheet: rules such as
//! `border.SwCf { color: blue; }` give each allegiance's border colour.
use vstd::prelude::*;

use crate::text::{chars_of, string_from_chars, str_eq, trim, trim_chars, split_on, split_chars, lemma_split_on_len,
    slice_to_vec};
use crate::requests::{eq_ignore_case, eq_ignore_ascii_case};
use crate::world_util::has_prefix;
use crate::xml::{XmlNode, doc_nodes, parse_xml, opt_text_view};
use crate::metadata::is_tag;

verus! {

/// The position of the first `c` in `s`.
pub open spec fn first_pos(s: Seq<char>, c: char, k: int) -> Option<int>
    decreases k,
{
    if k <= 0 {
        None
    } else {
        match first_pos(s, c, k - 1) {
            Some(i) => Some(i),
            None => if s[k - 1] == c { Some(k - 1) } else { None },
        }
    }
}

/// `str::split_once(c)`: the text before the first `c` and after it.
pub open spec fn split_once(s: Seq<char>, c: char) -> Option<(Seq<char>, Seq<char>)> {
    match first_pos(s, c, s.len() as int) {
        Some(p) => Some((s.subrange(0, p), s.subrange(p + 1, s.len() as int))),
        None => None,
    }
}

/// The value of the first `color: …` declaration (the name in any ASCII
/// case), trimmed.
pub open spec fn first_color(decls: Seq<Seq<char>>) -> Option<Seq<char>>
    decreases decls.len(),
{
    if decls.len() == 0 {
        None
    } else {
        match split_once(decls[0], ':') {
            Some((k, v)) => if eq_ignore_case(trim(k), "color"@) { Some(trim(v)) } else { first_color(decls.drop_first()) },
            None => first_color(decls.drop_first()),
        }
    }
}

/// The `(allegiance, colour)` each `border.<allegiance>` selector of a rule's
/// selector list assigns.
pub open spec fn selector_assignments(sels: Seq<Seq<char>>, color: Seq<char>) -> Seq<(Seq<char>, Seq<char>)>
    decreases sels.len(),
{
    if sels.len() == 0 {
        Seq::empty()
    } else {
        let t = trim(sels.last());
        selector_assignments(sels.drop_last(), color) + if has_prefix(t, "border."@) {
            seq![(trim(t.subrange(7, t.len() as int)), color)]
        } else {
            Seq::empty()
        }
    }
}

/// The assignments of one rule `selectors { declarations`.
pub open spec fn rule_assignments(rule: Seq<char>) -> Seq<(Seq<char>, Seq<char>)> {
    match split_once(rule, '{') {
        Some((sels, body)) => match first_color(split_on(body, ';')) {
            Some(color) => selector_assignments(split_on(sels, ','), color),
            None => Seq::empty(),
        },
        None => Seq::empty(),
    }
}

/// Every assignment of the rules, in order.
pub open spec fn all_assignments(rules: Seq<Seq<char>>) -> Seq<(Seq<char>, Seq<char>)>
    decreases rules.len(),
{
    if rules.len() == 0 {
        Seq::empty()
    } else {
        all_assignments(rules.drop_last()) + rule_assignments(rules.last())
    }
}

/// The position of key `k` among the pairs.
pub open spec fn key_pos(m: Seq<(Seq<char>, Seq<char>)>, k: Seq<char>, n: int) -> Option<int>
    decreases n,
{
    if n <= 0 {
        None
    } else {
        match key_pos(m, k, n - 1) {
            Some(i) => Some(i),
            None => if m[n - 1].0 == k { Some(n - 1) } else { None },
        }
    }
}

/// Set key `k` to `v`: in place when present, else added at the end.
pub open spec fn upsert(m: Seq<(Seq<char>, Seq<char>)>, k: Seq<char>, v: Seq<char>) -> Seq<(Seq<char>, Seq<char>)> {
    match key_pos(m, k, m.len() as int) {
        Some(i) => m.update(i, (k, v)),
        None => m.push((k, v)),
    }
}

/// The map the assignments build, one entry per key in order of first
/// assignment, each with its last value.
pub open spec fn assigned(a: Seq<(Seq<char>, Seq<char>)>) -> Seq<(Seq<char>, Seq<char>)>
    decreases a.len(),
{
    if a.len() == 0 {
        Seq::empty()
    } else {
        upsert(assigned(a.drop_last()), a.last().0, a.last().1)
    }
}

/// The border colours of a stylesheet.
pub open spec fn styles_of(css: Seq<char>) -> Seq<(Seq<char>, Seq<char>)> {
    assigned(all_assignments(split_on(css, '}')))
}

pub open spec fn pairs_view(v: Seq<(String, String)>) -> Seq<(Seq<char>, Seq<char>)> {
    v.map_values(|e: (String, String)| (e.0@, e.1@))
}

proof fn lemma_key_pos_range(m: Seq<(Seq<char>, Seq<char>)>, k: Seq<char>, n: int)
    requires
        0 <= n,
    ensures
        key_pos(m, k, n) matches Some(i) ==> 0 <= i < n && m[i].0 == k,
    decreases n,
{
    if n > 0 {
        lemma_key_pos_range(m, k, n - 1);
    }
}

proof fn lemma_key_pos_stable(m: Seq<(Seq<char>, Seq<char>)>, k: Seq<char>, n1: int, n2: int)
    requires
        0 <= n1 <= n2,
        key_pos(m, k, n1) is Some,
    ensures
        key_pos(m, k, n2) == key_pos(m, k, n1),
    decreases n2 - n1,
{
    if n1 < n2 {
        lemma_key_pos_stable(m, k, n1, n2 - 1);
    }
}

fn first_pos_exec(s: &Vec<char>, c: char) -> (r: Option<usize>)
    ensures
        match r {
            Some(p) => first_pos(s@, c, s@.len() as int) == Some(p as int) && p < s@.len(),
            None => first_pos(s@, c, s@.len() as int) is None,
        },
{
    let mut i: usize = 0;
    while i < s.len()
        invariant
            i <= s@.len(),
            first_pos(s@, c, i as int) is None,
        decreases s@.len() - i,
    {
        if s[i] == c {
            proof { lemma_first_pos_stable(s@, c, i + 1, s@.len() as int); }
            return Some(i);
        }
        i += 1;
    }
    None
}

proof fn lemma_first_pos_stable(s: Seq<char>, c: char, n1: int, n2: int)
    requires
        0 <= n1 <= n2,
        first_pos(s, c, n1) is Some,
    ensures
        first_pos(s, c, n2) == first_pos(s, c, n1),
    decreases n2 - n1,
{
    if n1 < n2 {
        lemma_first_pos_stable(s, c, n1, n2 - 1);
    }
}

fn split_once_exec(s: &Vec<char>, c: char) -> (r: Option<(Vec<char>, Vec<char>)>)
    ensures
        match r {
            Some((a, b)) => split_once(s@, c) == Some((a@, b@)),
            None => split_once(s@, c) is None,
        },
{
    let n = s.len();
    match first_pos_exec(s, c) {
        Some(p) => Some((slice_to_vec(s.as_slice(), 0, p), slice_to_vec(s.as_slice(), p + 1, n))),
        None => None,
    }
}

fn first_color_exec(decls: &Vec<Vec<char>>) -> (r: Option<Vec<char>>)
    ensures
        match r {
            Some(c) => first_color(decls@.map_values(|v: Vec<char>| v@)) == Some(c@),
            None => first_color(decls@.map_values(|v: Vec<char>| v@)) is None,
        },
{
    let ghost dv = decls@.map_values(|v: Vec<char>| v@);
    let mut i: usize = 0;
    assert(dv.subrange(0, dv.len() as int) =~= dv);
    while i < decls.len()
        invariant
            i <= decls@.len(),
            dv == decls@.map_values(|v: Vec<char>| v@),
            first_color(dv) == first_color(dv.subrange(i as int, dv.len() as int)),
        decreases decls@.len() - i,
    {
        let ghost rest = dv.subrange(i as int, dv.len() as int);
        assert(rest[0] == decls@[i as int]@);
        assert(rest.drop_first() =~= dv.subrange(i + 1, dv.len() as int));
        if let Some((k, v)) = split_once_exec(&decls[i], ':') {
            let kt = string_from_chars(&trim_chars(&k));
            if eq_ignore_ascii_case(kt.as_str(), "color") {
                return Some(trim_chars(&v));
            }
        }
        i += 1;
    }
    None
}

fn push_selector_assignments(out: &mut Vec<(String, String)>, sels: &Vec<Vec<char>>, color: &Vec<char>)
    ensures
        pairs_view(final(out)@) == pairs_view(old(out)@)
            + selector_assignments(sels@.map_values(|v: Vec<char>| v@), color@),
{
    let ghost sv = sels@.map_values(|v: Vec<char>| v@);
    let ghost start = pairs_view(out@);
    let mut i: usize = 0;
    while i < sels.len()
        invariant
            i <= sels@.len(),
            sv == sels@.map_values(|v: Vec<char>| v@),
            pairs_view(out@) == start + selector_assignments(sv.take(i as int), color@),
        decreases sels@.len() - i,
    {
        assert(sv.take(i + 1).drop_last() =~= sv.take(i as int));
        assert(sv.take(i + 1).last() == sels@[i as int]@);
        let ghost before = pairs_view(out@);
        let ghost rest = selector_assignments(sv.take(i as int), color@);
        let t = trim_chars(&sels[i]);
        let ts = string_from_chars(&t);
        if crate::world_util::starts_with_str(ts.as_str(), "border.") {
            proof { reveal_strlit("border."); }
            let a = trim_chars(&slice_to_vec(t.as_slice(), 7, t.len()));
            out.push((string_from_chars(&a), string_from_chars(color.as_slice())));
            assert(pairs_view(out@) =~= before.push((a@, color@)));
            assert(start + (rest + seq![(a@, color@)]) =~= before.push((a@, color@)));
        } else {
            assert(rest + Seq::<(Seq<char>, Seq<char>)>::empty() =~= rest);
        }
        i += 1;
    }
    assert(sv.take(sv.len() as int) =~= sv);
}

pub(crate) fn upsert_exec(m: &mut Vec<(String, String)>, k: &String, v: &String)
    ensures
        pairs_view(final(m)@) == upsert(pairs_view(old(m)@), k@, v@),
{
    let ghost mv = pairs_view(m@);
    let mut i: usize = 0;
    while i < m.len()
        invariant
            i <= m@.len(),
            mv == pairs_view(m@),
            m@ == old(m)@,
            key_pos(mv, k@, i as int) is None,
        decreases m@.len() - i,
    {
        if str_eq(m[i].0.as_str(), k.as_str()) {
            proof {
                assert(key_pos(mv, k@, i + 1) == Some(i as int));
                lemma_key_pos_stable(mv, k@, i + 1, mv.len() as int);
            }
            let kc = k.clone();
            let vc = v.clone();
            m.set(i, (kc, vc));
            assert(pairs_view(m@) =~= mv.update(i as int, (k@, v@)));
            assert(upsert(mv, k@, v@) == mv.update(i as int, (k@, v@)));
            return;
        }
        i += 1;
    }
    m.push((k.clone(), v.clone()));
    assert(pairs_view(m@) =~= mv.push((k@, v@)));
}

/// The border colours a stylesheet's `border.<allegiance> { color: … }`
/// rules assign: one `(allegiance, colour)` per allegiance, in order of first
/// assignment, a later rule's colour replacing an earlier one's.
pub fn parse_border_styles_css(css: &str) -> (r: Vec<(String, String)>)
    ensures
        pairs_view(r@) == styles_of(css@),
{
    let cs = chars_of(css);
    let rules = split_chars(cs.as_slice(), '}');
    let ghost rv = rules@.map_values(|v: Vec<char>| v@);
    let mut assignments: Vec<(String, String)> = Vec::new();
    let mut i: usize = 0;
    while i < rules.len()
        invariant
            i <= rules@.len(),
            rv == rules@.map_values(|v: Vec<char>| v@),
            pairs_view(assignments@) == all_assignments(rv.take(i as int)),
        decreases rules@.len() - i,
    {
        assert(rv.take(i + 1).drop_last() =~= rv.take(i as int));
        assert(rv.take(i + 1).last() == rules@[i as int]@);
        let ghost before = pairs_view(assignments@);
        match split_once_exec(&rules[i], '{') {
            Some((sels, body)) => {
                let decls = split_chars(body.as_slice(), ';');
                match first_color_exec(&decls) {
                    Some(color) => {
                        let sel_list = split_chars(sels.as_slice(), ',');
                        push_selector_assignments(&mut assignments, &sel_list, &color);
                    },
                    None => {
                        assert(before + Seq::<(Seq<char>, Seq<char>)>::empty() =~= before);
                    },
                }
            },
            None => {
                assert(before + Seq::<(Seq<char>, Seq<char>)>::empty() =~= before);
            },
        }
        i += 1;
    }
    assert(rv.take(rv.len() as int) =~= rv);
    let ghost av = pairs_view(assignments@);
    let mut out: Vec<(String, String)> = Vec::new();
    let mut j: usize = 0;
    while j < assignments.len()
        invariant
            j <= assignments@.len(),
            av == pairs_view(assignments@),
            pairs_view(out@) == assigned(av.take(j as int)),
        decreases assignments@.len() - j,
    {
        assert(av.take(j + 1).drop_last() =~= av.take(j as int));
        assert(av.take(j + 1).last() == (assignments@[j as int].0@, assignments@[j as int].1@));
        upsert_exec(&mut out, &assignments[j].0, &assignments[j].1);
        j += 1;
    }
    assert(av.take(av.len() as int) =~= av);
    out
}

/// The first `<Stylesheet>` element among the first `k` nodes.
pub open spec fn first_stylesheet(nodes: Seq<XmlNode>, k: int) -> Option<int>
    decreases k,
{
    if k <= 0 {
        None
    } else {
        match first_stylesheet(nodes, k - 1) {
            Some(i) => Some(i),
            None => if is_tag(nodes, k - 1, "Stylesheet"@) { Some(k - 1) } else { None },
        }
    }
}

/// The border colours of a sector metadata document: those of the text of
/// its first `<Stylesheet>` element, none when it has none (or the document
/// does not parse).
pub open spec fn document_styles(nodes: Seq<XmlNode>) -> Seq<(Seq<char>, Seq<char>)> {
    match first_stylesheet(nodes, nodes.len() as int) {
        Some(i) => match opt_text_view(nodes[i].text) {
            Some(t) => styles_of(t),
            None => Seq::empty(),
        },
        None => Seq::empty(),
    }
}

proof fn lemma_first_stylesheet_stable(nodes: Seq<XmlNode>, n1: int, n2: int)
    requires
        0 <= n1 <= n2,
        first_stylesheet(nodes, n1) is Some,
    ensures
        first_stylesheet(nodes, n2) == first_stylesheet(nodes, n1),
        first_stylesheet(nodes, n1) matches Some(i) && 0 <= i < n1,
    decreases n2 - n1,
{
    if n1 < n2 {
        lemma_first_stylesheet_stable(nodes, n1, n2 - 1);
    } else {
        lemma_first_stylesheet_range(nodes, n1);
    }
}

proof fn lemma_first_stylesheet_range(nodes: Seq<XmlNode>, k: int)
    requires
        0 <= k,
    ensures
        first_stylesheet(nodes, k) matches Some(i) ==> 0 <= i < k,
    decreases k,
{
    if k > 0 {
        lemma_first_stylesheet_range(nodes, k - 1);
    }
}

/// [`sector_border_styles`] over a parsed document.
pub fn border_styles_from(nodes: &Vec<XmlNode>) -> (r: Vec<(String, String)>)
    ensures
        pairs_view(r@) == document_styles(nodes@),
{
    let mut i: usize = 0;
    while i < nodes.len()
        invariant
            i <= nodes@.len(),
            first_stylesheet(nodes@, i as int) is None,
        decreases nodes@.len() - i,
    {
        if nodes[i].element && str_eq(nodes[i].name.as_str(), "Stylesheet") {
            proof { lemma_first_stylesheet_stable(nodes@, i + 1, nodes@.len() as int); }
            return match &nodes[i].text {
                Some(t) => parse_border_styles_css(t.as_str()),
                None => Vec::new(),
            };
        }
        i += 1;
    }
    Vec::new()
}

/// Per-sector border colours from a metadata document's `<Stylesheet>`
/// (CSS-like: `border.SwCf { color: blue; }`): allegiance → colour.
pub fn sector_border_styles(xml: &str) -> (r: Vec<(String, String)>)
    ensures
        pairs_view(r@) == document_styles(doc_nodes(xml@)),
{
    match parse_xml(xml) {
        Ok(nodes) => border_styles_from(&nodes),
        Err(_) => {
            assert(first_stylesheet(Seq::<XmlNode>::empty(), 0) is None);
            Vec::new()
        },
    }
}

} // verus!
