//! Generation of the fixed OOXML inline-drawing fragment that replaces an
//! image placeholder, parameterized by the relationship identifier and the
//! extents in EMU.

use vstd::prelude::*;
use vstd::string::StringSliceAdditionalSpecFns;

use crate::bytes_util::{dec_rep, extend_bytes, u64_to_dec};
use crate::xml::{XmlEvent, XmlEventView, ev_wf, event_views};

verus! {

/// A start event for element `name` whose raw content appends `rest`.
pub open spec fn start_view(name: &str, rest: &str) -> XmlEventView {
    XmlEventView::Start(name.spec_bytes() + rest.spec_bytes(), name.spec_bytes().len())
}

/// An empty-element event for `name` whose raw content appends `rest`.
pub open spec fn empty_view(name: &str, rest: &str) -> XmlEventView {
    XmlEventView::Empty(name.spec_bytes() + rest.spec_bytes(), name.spec_bytes().len())
}

/// An end event for element `name`.
pub open spec fn end_view(name: &str) -> XmlEventView {
    XmlEventView::End(name.spec_bytes())
}

/// The raw content of an extent-like empty element:
/// `name cx="w" cy="h"` with the extents in decimal.
pub open spec fn extent_raw(name: &str, w: u64, h: u64) -> Seq<u8> {
    name.spec_bytes() + " cx=\"".spec_bytes() + dec_rep(w as nat) + "\" cy=\"".spec_bytes()
        + dec_rep(h as nat) + "\"".spec_bytes()
}

/// The extent-like empty element itself.
pub open spec fn extent_view(name: &str, w: u64, h: u64) -> XmlEventView {
    XmlEventView::Empty(extent_raw(name, w, h), name.spec_bytes().len())
}

/// The raw content of the blip reference: `a:blip r:embed="rid"`.
pub open spec fn blip_raw(rid: Seq<u8>) -> Seq<u8> {
    "a:blip".spec_bytes() + " r:embed=\"".spec_bytes() + rid + "\"".spec_bytes()
}

/// The blip empty element itself.
pub open spec fn blip_view(rid: Seq<u8>) -> XmlEventView {
    XmlEventView::Empty(blip_raw(rid), "a:blip".spec_bytes().len())
}

/// The event sequence of the inline-drawing fragment for relationship
/// `rid` with extents `w` by `h` EMU.
pub open spec fn drawing_events_spec(rid: Seq<u8>, w: u64, h: u64) -> Seq<XmlEventView> {
    seq![
        start_view("w:drawing", ""),
        start_view("wp:inline", " distT=\"0\" distB=\"0\" distL=\"0\" distR=\"0\""),
        extent_view("wp:extent", w, h),
        empty_view("wp:docPr", " id=\"1\" name=\"Picture 1\" descr=\"Generated image\""),
        start_view("wp:cNvGraphicFramePr", ""),
        empty_view(
            "a:graphicFrameLocks",
            " xmlns:a=\"http://schemas.openxmlformats.org/drawingml/2006/main\" noChangeAspect=\"1\"",
        ),
        end_view("wp:cNvGraphicFramePr"),
        start_view(
            "a:graphic",
            " xmlns:a=\"http://schemas.openxmlformats.org/drawingml/2006/main\"",
        ),
        start_view(
            "a:graphicData",
            " uri=\"http://schemas.openxmlformats.org/drawingml/2006/picture\"",
        ),
        start_view(
            "pic:pic",
            " xmlns:pic=\"http://schemas.openxmlformats.org/drawingml/2006/picture\"",
        ),
        start_view("pic:nvPicPr", ""),
        empty_view("pic:cNvPr", " id=\"0\" name=\"Picture 1\" descr=\"Generated image\""),
        start_view("pic:cNvPicPr", ""),
        empty_view("a:picLocks", " noChangeAspect=\"1\""),
        end_view("pic:cNvPicPr"),
        end_view("pic:nvPicPr"),
        start_view("pic:blipFill", ""),
        blip_view(rid),
        start_view("a:stretch", ""),
        empty_view("a:fillRect", ""),
        end_view("a:stretch"),
        end_view("pic:blipFill"),
        start_view("pic:spPr", ""),
        start_view("a:xfrm", ""),
        empty_view("a:off", " x=\"0\" y=\"0\""),
        extent_view("a:ext", w, h),
        end_view("a:xfrm"),
        start_view("a:prstGeom", " prst=\"rect\""),
        empty_view("a:avLst", ""),
        end_view("a:prstGeom"),
        end_view("pic:spPr"),
        end_view("pic:pic"),
        end_view("a:graphicData"),
        end_view("a:graphic"),
        end_view("wp:inline"),
        end_view("w:drawing"),
    ]
}

/// Every event of the fragment is well formed.
pub proof fn lemma_drawing_events_wf(rid: Seq<u8>, w: u64, h: u64)
    ensures
        forall|i: int|
            0 <= i < drawing_events_spec(rid, w, h).len() ==> ev_wf(
                #[trigger] drawing_events_spec(rid, w, h)[i],
            ),
{
}

pub(crate) fn start_ev(name: &str, rest: &str) -> (e: XmlEvent)
    ensures
        e@ == start_view(name, rest),
{
    let mut raw: Vec<u8> = Vec::new();
    extend_bytes(&mut raw, name.as_bytes());
    let nl: usize = raw.len();
    extend_bytes(&mut raw, rest.as_bytes());
    XmlEvent::Start(raw, nl)
}

pub(crate) fn empty_ev(name: &str, rest: &str) -> (e: XmlEvent)
    ensures
        e@ == empty_view(name, rest),
{
    let mut raw: Vec<u8> = Vec::new();
    extend_bytes(&mut raw, name.as_bytes());
    let nl: usize = raw.len();
    extend_bytes(&mut raw, rest.as_bytes());
    XmlEvent::Empty(raw, nl)
}

pub(crate) fn end_ev(name: &str) -> (e: XmlEvent)
    ensures
        e@ == end_view(name),
{
    XmlEvent::End(vstd::slice::slice_to_vec(name.as_bytes()))
}

fn extent_ev(name: &str, w: u64, h: u64) -> (e: XmlEvent)
    ensures
        e@ == extent_view(name, w, h),
{
    let mut raw: Vec<u8> = Vec::new();
    extend_bytes(&mut raw, name.as_bytes());
    let nl: usize = raw.len();
    extend_bytes(&mut raw, " cx=\"".as_bytes());
    let wd = u64_to_dec(w);
    extend_bytes(&mut raw, wd.as_slice());
    extend_bytes(&mut raw, "\" cy=\"".as_bytes());
    let hd = u64_to_dec(h);
    extend_bytes(&mut raw, hd.as_slice());
    extend_bytes(&mut raw, "\"".as_bytes());
    proof {
        assert(raw@ =~= extent_raw(name, w, h));
    }
    XmlEvent::Empty(raw, nl)
}

fn blip_ev(rid: &[u8]) -> (e: XmlEvent)
    ensures
        e@ == blip_view(rid@),
{
    let mut raw: Vec<u8> = Vec::new();
    extend_bytes(&mut raw, "a:blip".as_bytes());
    let nl: usize = raw.len();
    extend_bytes(&mut raw, " r:embed=\"".as_bytes());
    extend_bytes(&mut raw, rid);
    extend_bytes(&mut raw, "\"".as_bytes());
    proof {
        assert(raw@ =~= blip_raw(rid@));
    }
    XmlEvent::Empty(raw, nl)
}

/// Produce the inline-drawing fragment, as events, for an image embedded
/// under relationship `relation_id` with the given extents in EMU.
pub fn create_drawing_element(relation_id: &[u8], width: u64, height: u64) -> (r: Vec<XmlEvent>)
    ensures
        event_views(r@) == drawing_events_spec(relation_id@, width, height),
{
    let mut v: Vec<XmlEvent> = Vec::new();
    v.push(start_ev("w:drawing", ""));
    v.push(start_ev("wp:inline", " distT=\"0\" distB=\"0\" distL=\"0\" distR=\"0\""));
    v.push(extent_ev("wp:extent", width, height));
    v.push(empty_ev("wp:docPr", " id=\"1\" name=\"Picture 1\" descr=\"Generated image\""));
    v.push(start_ev("wp:cNvGraphicFramePr", ""));
    v.push(
        empty_ev(
            "a:graphicFrameLocks",
            " xmlns:a=\"http://schemas.openxmlformats.org/drawingml/2006/main\" noChangeAspect=\"1\"",
        ),
    );
    v.push(end_ev("wp:cNvGraphicFramePr"));
    v.push(
        start_ev("a:graphic", " xmlns:a=\"http://schemas.openxmlformats.org/drawingml/2006/main\""),
    );
    v.push(
        start_ev(
            "a:graphicData",
            " uri=\"http://schemas.openxmlformats.org/drawingml/2006/picture\"",
        ),
    );
    v.push(
        start_ev("pic:pic", " xmlns:pic=\"http://schemas.openxmlformats.org/drawingml/2006/picture\""),
    );
    v.push(start_ev("pic:nvPicPr", ""));
    v.push(empty_ev("pic:cNvPr", " id=\"0\" name=\"Picture 1\" descr=\"Generated image\""));
    v.push(start_ev("pic:cNvPicPr", ""));
    v.push(empty_ev("a:picLocks", " noChangeAspect=\"1\""));
    v.push(end_ev("pic:cNvPicPr"));
    v.push(end_ev("pic:nvPicPr"));
    v.push(start_ev("pic:blipFill", ""));
    v.push(blip_ev(relation_id));
    v.push(start_ev("a:stretch", ""));
    v.push(empty_ev("a:fillRect", ""));
    v.push(end_ev("a:stretch"));
    v.push(end_ev("pic:blipFill"));
    v.push(start_ev("pic:spPr", ""));
    v.push(start_ev("a:xfrm", ""));
    v.push(empty_ev("a:off", " x=\"0\" y=\"0\""));
    v.push(extent_ev("a:ext", width, height));
    v.push(end_ev("a:xfrm"));
    v.push(start_ev("a:prstGeom", " prst=\"rect\""));
    v.push(empty_ev("a:avLst", ""));
    v.push(end_ev("a:prstGeom"));
    v.push(end_ev("pic:spPr"));
    v.push(end_ev("pic:pic"));
    v.push(end_ev("a:graphicData"));
    v.push(end_ev("a:graphic"));
    v.push(end_ev("wp:inline"));
    v.push(end_ev("w:drawing"));
    proof {
        assert(event_views(v@) =~= drawing_events_spec(relation_id@, width, height));
    }
    v
}

} // verus!
