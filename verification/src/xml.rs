//! The XML event stream that the rewriters work on.
//!
//! A document part is parsed once into a sequence of [`XmlEvent`]s (trusted,
//! through quick-xml), rewritten at the event level (verified), and then
//! serialized back to bytes (verified: each event's wire form is a plain
//! concatenation, stated by [`xml_out_of`]).

use vstd::prelude::*;
use vstd::string::StringSliceAdditionalSpecFns;

use crate::bytes_util::extend_bytes;
use crate::error::DocxError;
use quick_xml::Reader;
use quick_xml::Writer;
use quick_xml::events::Event;

verus! {

/// One event of a document part's XML stream.
///
/// `Start` and `Empty` carry the raw bytes between the angle brackets
/// (name and attributes) together with the length of the element name.
/// `Text` carries the unescaped character data. `Other` carries the full
/// wire form of any event that the rewriters only pass through
/// (declaration, comment, CDATA, processing instruction, doctype).
pub enum XmlEvent {
    Start(Vec<u8>, usize),
    End(Vec<u8>),
    Empty(Vec<u8>, usize),
    Text(Vec<u8>),
    Other(Vec<u8>),
}

/// The mathematical shape of an [`XmlEvent`].
pub enum XmlEventView {
    Start(Seq<u8>, nat),
    End(Seq<u8>),
    Empty(Seq<u8>, nat),
    Text(Seq<u8>),
    Other(Seq<u8>),
}

impl View for XmlEvent {
    type V = XmlEventView;

    open spec fn view(&self) -> XmlEventView {
        match self {
            XmlEvent::Start(raw, nl) => XmlEventView::Start(raw@, *nl as nat),
            XmlEvent::End(name) => XmlEventView::End(name@),
            XmlEvent::Empty(raw, nl) => XmlEventView::Empty(raw@, *nl as nat),
            XmlEvent::Text(t) => XmlEventView::Text(t@),
            XmlEvent::Other(b) => XmlEventView::Other(b@),
        }
    }
}

/// A well-formed event: the element name is a prefix of the raw content.
pub open spec fn ev_wf(e: XmlEventView) -> bool {
    match e {
        XmlEventView::Start(raw, nl) => nl <= raw.len(),
        XmlEventView::Empty(raw, nl) => nl <= raw.len(),
        _ => true,
    }
}

/// The views of a sequence of events.
pub open spec fn event_views(s: Seq<XmlEvent>) -> Seq<XmlEventView> {
    s.map_values(|e: XmlEvent| e@)
}

/// What parsing a byte stream yields: `None` where the XML is malformed,
/// otherwise the event sequence. Named here; quick-xml computes it.
pub uninterp spec fn xml_events_of(bytes: Seq<u8>) -> Option<Seq<XmlEventView>>;

/// The XML escaping of one byte of character data, as quick-xml's
/// `escape` performs it: the five markup-significant characters become
/// entity references, every other byte stands unchanged.
pub open spec fn escape_byte(b: u8) -> Seq<u8> {
    if b == 38 {
        "&amp;".spec_bytes()
    } else if b == 60 {
        "&lt;".spec_bytes()
    } else if b == 62 {
        "&gt;".spec_bytes()
    } else if b == 34 {
        "&quot;".spec_bytes()
    } else if b == 39 {
        "&apos;".spec_bytes()
    } else {
        seq![b]
    }
}

/// The XML escaping of a run of character data.
pub open spec fn escape_xml(s: Seq<u8>) -> Seq<u8>
    decreases s.len(),
{
    if s.len() == 0 {
        Seq::empty()
    } else {
        escape_xml(s.drop_last()) + escape_byte(s.last())
    }
}

/// The wire form of one event.
pub open spec fn xml_out_of(e: XmlEventView) -> Seq<u8> {
    match e {
        XmlEventView::Start(raw, _) => "<".spec_bytes() + raw + ">".spec_bytes(),
        XmlEventView::End(name) => "</".spec_bytes() + name + ">".spec_bytes(),
        XmlEventView::Empty(raw, _) => "<".spec_bytes() + raw + "/>".spec_bytes(),
        XmlEventView::Text(t) => escape_xml(t),
        XmlEventView::Other(b) => b,
    }
}

/// The wire form of an event sequence.
pub open spec fn xml_concat(evs: Seq<XmlEventView>) -> Seq<u8>
    decreases evs.len(),
{
    if evs.len() == 0 {
        Seq::empty()
    } else {
        xml_concat(evs.drop_last()) + xml_out_of(evs.last())
    }
}

/// What parsing the attribute region of a start or empty element yields:
/// `None` where an attribute is malformed, otherwise the key/value pairs
/// with values unescaped. Named here; quick-xml computes it.
pub uninterp spec fn attrs_of(raw: Seq<u8>, name_len: nat) -> Option<Seq<(Seq<u8>, Seq<u8>)>>;

/// Relies on quick-xml's `Reader::read_event_into`: parsing is a function
/// of the input bytes alone, fails exactly on malformed XML, and reports
/// an element name that is a prefix of the raw tag content.
#[verifier::external_body]
pub fn parse_xml_events(bytes: &Vec<u8>) -> (r: Result<Vec<XmlEvent>, DocxError>)
    ensures
        r is Ok <==> xml_events_of(bytes@) is Some,
        r matches Ok(v) ==> event_views(v@) == xml_events_of(bytes@).unwrap(),
        r matches Ok(v) ==> forall|i: int| 0 <= i < v@.len() ==> ev_wf(#[trigger] v@[i]@),
        r is Err ==> r matches Err(DocxError::Xml(_)),
{
    let mut reader = Reader::from_reader(bytes.as_slice());
    let mut out: Vec<XmlEvent> = Vec::new();
    let mut buf: Vec<u8> = Vec::new();
    loop {
        match reader.read_event_into(&mut buf) {
            Ok(Event::Eof) => return Ok(out),
            Ok(e) => out.push(event_from_quick(e)?),
            Err(e) => return Err(DocxError::Xml(e)),
        }
        buf.clear();
    }
}

/// Relies on quick-xml's event accessors (`BytesStart::name`,
/// `BytesText::unescape`) and on its `Writer::write_event` for the wire
/// form of pass-through events.
#[verifier::external_body]
fn event_from_quick(e: Event<'_>) -> (r: Result<XmlEvent, DocxError>)
{
    Ok(match e {
        Event::Start(s) => XmlEvent::Start(s.to_vec(), s.name().as_ref().len()),
        Event::Empty(s) => XmlEvent::Empty(s.to_vec(), s.name().as_ref().len()),
        Event::End(s) => XmlEvent::End(s.to_vec()),
        Event::Text(t) => XmlEvent::Text(t.unescape().map_err(DocxError::Xml)?.into_owned().into_bytes()),
        other => {
            let mut w = Writer::new(std::io::Cursor::new(Vec::new()));
            let _ = w.write_event(other);
            XmlEvent::Other(w.into_inner().into_inner())
        },
    })
}

/// Declares `quick_xml::events::Event` so that it can stand in a signature.
#[verifier::external_type_specification]
#[verifier::external_body]
pub struct ExEvent<'a>(Event<'a>);

/// Relies on quick-xml's `BytesStart::attributes` and
/// `Attribute::unescape_value`: the attribute list is a function of the raw
/// tag content and the name length alone, and fails exactly on malformed
/// attribute syntax, with an `Xml` error. The attribute iterator starts
/// slicing at `name_len`, so the name must lie within the content.
#[verifier::external_body]
pub fn parse_attributes(raw: &Vec<u8>, name_len: usize) -> (r: Result<
    Vec<(Vec<u8>, Vec<u8>)>,
    DocxError,
>)
    requires
        name_len <= raw@.len(),
    ensures
        r is Ok <==> attrs_of(raw@, name_len as nat) is Some,
        r matches Ok(v) ==> v.deep_view() == attrs_of(raw@, name_len as nat).unwrap(),
        r is Err ==> r matches Err(DocxError::Xml(_)),
{
    let content = String::from_utf8_lossy(raw).into_owned();
    let e = quick_xml::events::BytesStart::from_content(content, name_len);
    let mut out: Vec<(Vec<u8>, Vec<u8>)> = Vec::new();
    for a in e.attributes() {
        let a = a.map_err(|err| DocxError::Xml(quick_xml::Error::InvalidAttr(err)))?;
        let value = a.unescape_value().map_err(DocxError::Xml)?;
        out.push((a.key.as_ref().to_vec(), value.into_owned().into_bytes()));
    }
    Ok(out)
}

/// A fresh copy of an event.
pub fn clone_event(e: &XmlEvent) -> (r: XmlEvent)
    ensures
        r@ == e@,
{
    match e {
        XmlEvent::Start(raw, nl) => XmlEvent::Start(crate::bytes_util::clone_bytes(raw), *nl),
        XmlEvent::End(name) => XmlEvent::End(crate::bytes_util::clone_bytes(name)),
        XmlEvent::Empty(raw, nl) => XmlEvent::Empty(crate::bytes_util::clone_bytes(raw), *nl),
        XmlEvent::Text(t) => XmlEvent::Text(crate::bytes_util::clone_bytes(t)),
        XmlEvent::Other(b) => XmlEvent::Other(crate::bytes_util::clone_bytes(b)),
    }
}

/// Views distribute over concatenation.
pub proof fn lemma_event_views_add(a: Seq<XmlEvent>, b: Seq<XmlEvent>)
    ensures
        event_views(a + b) == event_views(a) + event_views(b),
{
    assert(event_views(a + b) =~= event_views(a) + event_views(b));
}

/// Serialize one event into `out`.
pub fn write_event_bytes(out: &mut Vec<u8>, e: &XmlEvent)
    requires
        ev_wf(e@),
    ensures
        final(out)@ == old(out)@ + xml_out_of(e@),
{
    match e {
        XmlEvent::Start(raw, _) => {
            extend_bytes(out, "<".as_bytes());
            extend_bytes(out, raw.as_slice());
            extend_bytes(out, ">".as_bytes());
            proof {
                assert(old(out)@ + "<".spec_bytes() + raw@ + ">".spec_bytes() =~= old(out)@ + ("<".spec_bytes() + raw@ + ">".spec_bytes()));
            }
        },
        XmlEvent::End(name) => {
            extend_bytes(out, "</".as_bytes());
            extend_bytes(out, name.as_slice());
            extend_bytes(out, ">".as_bytes());
            proof {
                assert(old(out)@ + "</".spec_bytes() + name@ + ">".spec_bytes() =~= old(out)@ + ("</".spec_bytes() + name@
                    + ">".spec_bytes()));
            }
        },
        XmlEvent::Empty(raw, _) => {
            extend_bytes(out, "<".as_bytes());
            extend_bytes(out, raw.as_slice());
            extend_bytes(out, "/>".as_bytes());
            proof {
                assert(old(out)@ + "<".spec_bytes() + raw@ + "/>".spec_bytes() =~= old(out)@ + ("<".spec_bytes() + raw@
                    + "/>".spec_bytes()));
            }
        },
        XmlEvent::Text(t) => {
            let n: usize = t.len();
            let mut i: usize = 0;
            while i < n
                invariant
                    n == t@.len(),
                    0 <= i <= n,
                    out@ == old(out)@ + escape_xml(t@.take(i as int)),
                decreases n - i,
            {
                let b = t[i];
                proof {
                    assert(t@.take(i + 1).drop_last() =~= t@.take(i as int));
                    assert(t@.take(i + 1).last() == t@[i as int]);
                }
                if b == 38 {
                    extend_bytes(out, "&amp;".as_bytes());
                } else if b == 60 {
                    extend_bytes(out, "&lt;".as_bytes());
                } else if b == 62 {
                    extend_bytes(out, "&gt;".as_bytes());
                } else if b == 34 {
                    extend_bytes(out, "&quot;".as_bytes());
                } else if b == 39 {
                    extend_bytes(out, "&apos;".as_bytes());
                } else {
                    out.push(b);
                    proof {
                        assert(old(out)@ + escape_xml(t@.take(i as int)) + seq![b] =~= old(out)@
                            + (escape_xml(t@.take(i as int)) + escape_byte(b)));
                    }
                }
                proof {
                    assert(out@ =~= old(out)@ + escape_xml(t@.take(i + 1)));
                }
                i = i + 1;
            }
            proof {
                assert(t@.take(n as int) =~= t@);
            }
        },
        XmlEvent::Other(b) => {
            extend_bytes(out, b.as_slice());
        },
    }
}

/// Serialize an event sequence back to bytes.
pub fn serialize_xml_events(events: &Vec<XmlEvent>) -> (r: Vec<u8>)
    requires
        forall|i: int| 0 <= i < events@.len() ==> ev_wf(#[trigger] events@[i]@),
    ensures
        r@ == xml_concat(event_views(events@)),
{
    let n: usize = events.len();
    let mut out: Vec<u8> = Vec::new();
    let mut i: usize = 0;
    while i < n
        invariant
            n == events@.len(),
            0 <= i <= n,
            forall|j: int| 0 <= j < n ==> ev_wf(#[trigger] events@[j]@),
            out@ == xml_concat(event_views(events@).take(i as int)),
        decreases n - i,
    {
        proof {
            assert(event_views(events@).take(i + 1).drop_last() =~= event_views(events@).take(
                i as int,
            ));
            assert(event_views(events@).take(i + 1).last() == events@[i as int]@);
        }
        write_event_bytes(&mut out, &events[i]);
        i = i + 1;
    }
    proof {
        assert(event_views(events@).take(n as int) =~= event_views(events@));
    }
    out
}

} // verus!
