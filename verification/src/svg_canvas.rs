//! The bookkeeping of an SVG map tile: the markup accumulated so far, the
//! clip groups still open, and the ids handed to `<clipPath>` definitions.
//!
//! Shapes are drawn by the caller, which formats their coordinates; this
//! module owns the document's structure (ids, clip nesting, closing tags) and
//! the escaping of text.
use vstd::prelude::*;

use crate::dto::{xml_escaped, xml_escape};
use crate::text::{push_str_chars, string_from_chars, chars_of, int_decimal, int_to_string};

verus! {

/// An SVG document being drawn.
#[derive(Debug)]
pub struct SvgCanvas {
    /// The markup so far.
    pub body: String,
    /// `<g>` clip groups opened and not yet closed.
    pub clip_depth: u32,
    /// The next `<clipPath>` id.
    pub next_id: u32,
}

/// Escape text for an SVG text node or attribute value.
pub fn esc(s: &str) -> (r: String)
    ensures
        r@ == xml_escaped(s@),
{
    xml_escape(s)
}

/// The markup that opens clip group `id` on the path `d`.
pub open spec fn clip_open(id: int, d: Seq<char>) -> Seq<char> {
    "<clipPath id=\"tc"@ + int_decimal(id) + "\" clipPathUnits=\"userSpaceOnUse\"><path d=\""@ + d
        + "\"/></clipPath><g clip-path=\"url(#tc"@ + int_decimal(id) + ")\">"@
}

/// `n` closing `</g>` tags.
pub open spec fn closing_groups(n: nat) -> Seq<char>
    decreases n,
{
    if n == 0 { Seq::empty() } else { closing_groups((n - 1) as nat) + "</g>"@ }
}

impl SvgCanvas {
    /// An empty document.
    pub fn new() -> (c: SvgCanvas)
        ensures
            c.body@ == Seq::<char>::empty(),
            c.clip_depth == 0,
            c.next_id == 0,
    {
        SvgCanvas { body: String::new(), clip_depth: 0, next_id: 0 }
    }

    /// Append markup as it is.
    pub fn push_markup(&mut self, s: &str)
        ensures
            final(self).body@ == old(self).body@ + s@,
            final(self).clip_depth == old(self).clip_depth,
            final(self).next_id == old(self).next_id,
    {
        self.body.append(s);
    }

    /// A fresh `<clipPath>` id.
    pub fn fresh_id(&mut self) -> (id: u32)
        requires
            old(self).next_id < u32::MAX,
        ensures
            id == old(self).next_id,
            final(self).next_id == old(self).next_id + 1,
            final(self).body == old(self).body,
            final(self).clip_depth == old(self).clip_depth,
    {
        let id = self.next_id;
        self.next_id = id + 1;
        id
    }

    /// Open a clip group on the path `d` (already in SVG path syntax): a
    /// `<clipPath>` with a fresh id, then a `<g>` clipped by it.
    pub fn push_clip(&mut self, d: &str)
        requires
            old(self).next_id < u32::MAX,
            old(self).clip_depth < u32::MAX,
        ensures
            final(self).body@ == old(self).body@ + clip_open(old(self).next_id as int, d@),
            final(self).clip_depth == old(self).clip_depth + 1,
            final(self).next_id == old(self).next_id + 1,
    {
        let id = self.fresh_id();
        let ids = int_to_string(id as i64);
        let ghost start = self.body@;
        self.body.append("<clipPath id=\"tc");
        self.body.append(ids.as_str());
        self.body.append("\" clipPathUnits=\"userSpaceOnUse\"><path d=\"");
        self.body.append(d);
        self.body.append("\"/></clipPath><g clip-path=\"url(#tc");
        self.body.append(ids.as_str());
        self.body.append(")\">");
        assert(self.body@ =~= start + clip_open(id as int, d@));
        self.clip_depth = self.clip_depth + 1;
    }

    /// Close the innermost clip group, if one is open.
    pub fn pop_clip(&mut self)
        ensures
            old(self).clip_depth > 0 ==> final(self).body@ == old(self).body@ + "</g>"@
                && final(self).clip_depth == old(self).clip_depth - 1,
            old(self).clip_depth == 0 ==> final(self).body == old(self).body && final(self).clip_depth == 0,
            final(self).next_id == old(self).next_id,
    {
        if self.clip_depth > 0 {
            self.push_markup("</g>");
            self.clip_depth = self.clip_depth - 1;
        }
    }

    /// The markup with every clip group still open closed.
    pub fn finished_body(&self) -> (s: String)
        ensures
            s@ == self.body@ + closing_groups(self.clip_depth as nat),
    {
        let mut v = chars_of(self.body.as_str());
        let mut i: u32 = 0;
        while i < self.clip_depth
            invariant
                i <= self.clip_depth,
                v@ == self.body@ + closing_groups(i as nat),
            decreases self.clip_depth - i,
        {
            let ghost before = v@;
            push_str_chars(&mut v, "</g>");
            i += 1;
            assert(v@ =~= self.body@ + closing_groups(i as nat));
        }
        string_from_chars(&v)
    }
}

} // verus!
