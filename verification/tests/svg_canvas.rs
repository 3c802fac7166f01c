use tmap_core::svg_canvas::{esc, SvgCanvas};

#[test]
fn clip_groups_nest_and_close() {
    let mut c = SvgCanvas::new();
    c.push_markup("<rect/>");
    c.push_clip("M0 0L1 1Z");
    c.push_clip("M2 2");
    assert_eq!(c.clip_depth, 2);
    assert_eq!(c.next_id, 2);
    c.pop_clip();
    assert_eq!(c.clip_depth, 1);
    assert_eq!(
        c.body,
        "<rect/><clipPath id=\"tc0\" clipPathUnits=\"userSpaceOnUse\"><path d=\"M0 0L1 1Z\"/></clipPath>\
         <g clip-path=\"url(#tc0)\"><clipPath id=\"tc1\" clipPathUnits=\"userSpaceOnUse\"><path d=\"M2 2\"/></clipPath>\
         <g clip-path=\"url(#tc1)\"></g>"
    );
    assert!(c.finished_body().ends_with("</g></g>"));
    c.pop_clip();
    c.pop_clip();
    assert_eq!(c.clip_depth, 0);
    assert!(c.finished_body().ends_with("</g></g>"));
    assert_eq!(c.fresh_id(), 2);
}

#[test]
fn svg_text_is_escaped() {
    assert_eq!(esc("a<b & \"c\" 'd'>"), "a&lt;b &amp; &quot;c&quot; &apos;d&apos;&gt;");
}
