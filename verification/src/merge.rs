//! Merging several packages into one: the first source serves as the
//! structural template, the sources' body contents are concatenated with a
//! configurable separator, their relationship manifests are combined, and
//! their media files are carried over.

use vstd::prelude::*;
use vstd::string::StringSliceAdditionalSpecFns;

use crate::assoc::{find_key, insert_pair, lemma_find_key_upto, lemma_insert_pair_unique, unique_keys};
use crate::bytes_util::{bytes_eq, clone_bytes, extend_bytes, match_at, is_match_at};
use crate::docx::{doc_part_name, rels_part_name};
use crate::error::DocxError;
use crate::xml::{
    XmlEvent, XmlEventView, attrs_of, clone_event, ev_wf, event_views, parse_attributes,
    parse_xml_events, serialize_xml_events, xml_concat, xml_events_of,
};
use crate::zip_store::{ZipEntry, ZipEntryView, entry_views, zip_entries_of};

verus! {

/// The separator policy between two merged documents: a full page break,
/// or a number of blank paragraphs.
#[derive(Clone, Copy)]
pub enum DocxConcat {
    PAGE,
    CRLF(u32),
}

/// The page-break paragraph inserted between documents.
pub open spec fn page_break_bytes() -> Seq<u8> {
    "<w:p>\n    <w:r>\n        <w:br w:type=\"page\"/>\n    </w:r>\n</w:p>".spec_bytes()
}

/// The blank paragraph inserted between documents.
pub open spec fn empty_line_bytes() -> Seq<u8> {
    "<w:p>\n    <w:r>\n        <w:t></w:t>\n    </w:r>\n</w:p>".spec_bytes()
}

/// `n` blank paragraphs.
pub open spec fn empty_lines(n: nat) -> Seq<u8>
    decreases n,
{
    if n == 0 {
        Seq::<u8>::empty()
    } else {
        empty_lines((n - 1) as nat) + empty_line_bytes()
    }
}

/// The bytes a separator policy inserts.
pub open spec fn separator_bytes(c: DocxConcat) -> Seq<u8> {
    match c {
        DocxConcat::PAGE => page_break_bytes(),
        DocxConcat::CRLF(n) => empty_lines(n as nat),
    }
}

/// Write the separator for policy `c` into `out`.
pub fn write_separator(out: &mut Vec<u8>, c: DocxConcat)
    ensures
        final(out)@ == old(out)@ + separator_bytes(c),
{
    match c {
        DocxConcat::PAGE => {
            extend_bytes(
                out,
                "<w:p>\n    <w:r>\n        <w:br w:type=\"page\"/>\n    </w:r>\n</w:p>".as_bytes(),
            );
        },
        DocxConcat::CRLF(n) => {
            let mut k: u32 = 0;
            proof {
                assert(old(out)@ + empty_lines(0) =~= old(out)@);
            }
            while k < n
                invariant
                    0 <= k <= n,
                    out@ == old(out)@ + empty_lines(k as nat),
                decreases n - k,
            {
                extend_bytes(
                    out,
                    "<w:p>\n    <w:r>\n        <w:t></w:t>\n    </w:r>\n</w:p>".as_bytes(),
                );
                proof {
                    assert(old(out)@ + empty_lines(k as nat) + empty_line_bytes() =~= old(out)@
                        + empty_lines((k + 1) as nat));
                }
                k = k + 1;
            }
        },
    }
}

/// The rewriter state while extracting a body: whether the scan is inside
/// the body element, the element depth within it, and whether the body
/// has been closed.
pub struct BodyState {
    pub in_body: bool,
    pub depth: int,
    pub done: bool,
}

/// One transition of the body extractor, mirroring a single forward scan:
/// a `w:body` start enters the body at depth one, its end closes the scan,
/// and inner events are kept while the depth stays positive.
pub open spec fn body_step(st: BodyState, ev: XmlEventView) -> (BodyState, Seq<XmlEventView>) {
    if st.done {
        (st, Seq::<XmlEventView>::empty())
    } else {
        match ev {
            XmlEventView::Start(raw, nl) => {
                if raw.take(nl as int) == "w:body".spec_bytes() {
                    (BodyState { in_body: true, depth: 1, done: false }, Seq::<XmlEventView>::empty())
                } else if st.in_body {
                    let d = st.depth + 1;
                    (
                        BodyState { in_body: st.in_body, depth: d, done: false },
                        if d > 0 {
                            seq![ev]
                        } else {
                            Seq::<XmlEventView>::empty()
                        },
                    )
                } else {
                    (st, Seq::<XmlEventView>::empty())
                }
            },
            XmlEventView::End(name) => {
                if st.in_body && name == "w:body".spec_bytes() {
                    (BodyState { in_body: false, depth: st.depth, done: true }, Seq::<XmlEventView>::empty())
                } else if st.in_body {
                    let d = st.depth - 1;
                    (
                        BodyState { in_body: st.in_body, depth: d, done: false },
                        if d > 0 {
                            seq![ev]
                        } else {
                            Seq::<XmlEventView>::empty()
                        },
                    )
                } else {
                    (st, Seq::<XmlEventView>::empty())
                }
            },
            _ => {
                if st.in_body {
                    (
                        st,
                        if st.depth > 0 {
                            seq![ev]
                        } else {
                            Seq::<XmlEventView>::empty()
                        },
                    )
                } else {
                    (st, Seq::<XmlEventView>::empty())
                }
            },
        }
    }
}

/// The body extractor folded over an event sequence.
pub open spec fn body_run(evs: Seq<XmlEventView>) -> (BodyState, Seq<XmlEventView>)
    decreases evs.len(),
{
    if evs.len() == 0 {
        (BodyState { in_body: false, depth: 0, done: false }, Seq::<XmlEventView>::empty())
    } else {
        let prev = body_run(evs.drop_last());
        let st = body_step(prev.0, evs.last());
        (st.0, prev.1 + st.1)
    }
}

/// The events between a document's `w:body` tags.
pub open spec fn body_inner(evs: Seq<XmlEventView>) -> Seq<XmlEventView> {
    body_run(evs).1
}

/// What extracting a body part's inner content yields: `None` where the
/// XML is malformed, otherwise the serialized inner events.
pub open spec fn body_content_spec(xml: Seq<u8>) -> Option<Seq<u8>> {
    match xml_events_of(xml) {
        Some(evs) => Some(xml_concat(body_inner(evs))),
        None => None,
    }
}

/// Extract the serialized inner content of a body part: the children of
/// the `w:body` element, without the wrapper itself. Succeeds exactly
/// where the part parses as XML.
#[verifier::rlimit(60)]
pub fn extract_body_content(xml: &Vec<u8>) -> (r: Result<Vec<u8>, DocxError>)
    ensures
        r is Ok <==> xml_events_of(xml@) is Some,
        r matches Ok(out) ==> Some(out@) == body_content_spec(xml@),
        r is Err ==> r matches Err(DocxError::Xml(_)),
{
    let events = match parse_xml_events(xml) {
        Ok(e) => e,
        Err(e) => {
            return Err(e);
        },
    };
    let ghost evs = event_views(events@);
    let n: usize = events.len();
    let mut out: Vec<XmlEvent> = Vec::new();
    let mut in_body: bool = false;
    let mut depth: i128 = 0;
    let mut done: bool = false;
    let mut i: usize = 0;
    while i < n
        invariant
            evs == event_views(events@),
            n == events@.len(),
            0 <= i <= n,
            forall|k: int| 0 <= k < n ==> ev_wf(#[trigger] events@[k]@),
            -(i as int) <= depth as int <= i as int,
            body_run(evs.take(i as int)).0 == (BodyState {
                in_body,
                depth: depth as int,
                done,
            }),
            event_views(out@) == body_run(evs.take(i as int)).1,
            forall|k: int| 0 <= k < out@.len() ==> ev_wf(#[trigger] out@[k]@),
        decreases n - i,
    {
        proof {
            assert(evs.take(i + 1).drop_last() =~= evs.take(i as int));
            assert(evs.take(i + 1).last() == events@[i as int]@);
        }
        let ghost pre_st = BodyState { in_body, depth: depth as int, done };
        let ghost pre_out = event_views(out@);
        let ghost stp = body_step(pre_st, evs[i as int]);
        if !done {
            match &events[i] {
                XmlEvent::Start(raw, nl) => {
                    let name = vstd::slice::slice_subrange(raw.as_slice(), 0, *nl);
                    proof {
                        assert(raw@.subrange(0, *nl as int) =~= raw@.take(*nl as int));
                    }
                    if bytes_eq(name, "w:body".as_bytes()) {
                        in_body = true;
                        depth = 1;
                    } else if in_body {
                        depth = depth + 1;
                        if depth > 0 {
                            out.push(clone_event(&events[i]));
                        }
                    }
                },
                XmlEvent::End(ename) => {
                    let is_body_end = in_body && bytes_eq(ename.as_slice(), "w:body".as_bytes());
                    if is_body_end {
                        in_body = false;
                        done = true;
                    } else if in_body {
                        depth = depth - 1;
                        if depth > 0 {
                            out.push(clone_event(&events[i]));
                        }
                    }
                },
                _ => {
                    if in_body {
                        if depth > 0 {
                            out.push(clone_event(&events[i]));
                        }
                    }
                },
            }
        }
        proof {
            assert((BodyState { in_body, depth: depth as int, done }) == stp.0);
            assert(event_views(out@) =~= pre_out + stp.1);
        }
        i = i + 1;
    }
    proof {
        assert(evs.take(n as int) =~= evs);
    }
    Ok(serialize_xml_events(&out))
}

/// One relationship of a source manifest: identifier, type and target.
pub struct Relationship {
    pub id: Vec<u8>,
    pub rel_type: Vec<u8>,
    pub target: Vec<u8>,
}

/// The mathematical shape of a [`Relationship`].
pub struct RelView {
    pub id: Seq<u8>,
    pub typ: Seq<u8>,
    pub target: Seq<u8>,
}

impl View for Relationship {
    type V = RelView;

    open spec fn view(&self) -> RelView {
        RelView { id: self.id@, typ: self.rel_type@, target: self.target@ }
    }
}

/// The deep view of a relationship table.
pub open spec fn rel_pairs_view(s: Seq<(Vec<u8>, Relationship)>) -> Seq<(Seq<u8>, RelView)> {
    s.map_values(|p: (Vec<u8>, Relationship)| (p.0@, p.1@))
}

/// The last value bound to `key` in an attribute list, or empty.
pub open spec fn attr_last(attrs: Seq<(Seq<u8>, Seq<u8>)>, key: Seq<u8>) -> Seq<u8>
    decreases attrs.len(),
{
    if attrs.len() == 0 {
        Seq::<u8>::empty()
    } else if attrs.last().0 == key {
        attrs.last().1
    } else {
        attr_last(attrs.drop_last(), key)
    }
}

/// Pick the last value bound to `key` among parsed attributes.
fn attr_pick(attrs: &Vec<(Vec<u8>, Vec<u8>)>, key: &[u8]) -> (r: Vec<u8>)
    ensures
        r@ == attr_last(attrs.deep_view(), key@),
{
    let ghost av = attrs.deep_view();
    let mut i: usize = attrs.len();
    proof {
        assert(av.len() == attrs@.len());
        assert(av.take(av.len() as int) =~= av);
    }
    while i > 0
        invariant
            av == attrs.deep_view(),
            av.len() == attrs@.len(),
            0 <= i <= av.len(),
            attr_last(av, key@) == attr_last(av.take(i as int), key@),
        decreases i,
    {
        proof {
            assert(av.take(i as int).drop_last() =~= av.take(i - 1));
            assert(av.take(i as int).last() == av[i - 1]);
            assert(av[i - 1] == (attrs@[i - 1].0@, attrs@[i - 1].1@));
        }
        if bytes_eq(attrs[i - 1].0.as_slice(), key) {
            return clone_bytes(&attrs[i - 1].1);
        }
        i = i - 1;
    }
    proof {
        assert(av.take(0) =~= Seq::<(Seq<u8>, Seq<u8>)>::empty());
    }
    Vec::new()
}


/// The first entry with the given name.
pub open spec fn find_entry_upto(es: Seq<ZipEntryView>, name: Seq<u8>, n: int) -> Option<int>
    decreases n,
{
    if n <= 0 {
        None
    } else {
        match find_entry_upto(es, name, n - 1) {
            Some(i) => Some(i),
            None => if es[n - 1].name == name {
                Some(n - 1)
            } else {
                None
            },
        }
    }
}

/// The first entry named `name`, if any.
pub open spec fn find_entry(es: Seq<ZipEntryView>, name: Seq<u8>) -> Option<int> {
    find_entry_upto(es, name, es.len() as int)
}

pub proof fn lemma_find_entry_upto(es: Seq<ZipEntryView>, name: Seq<u8>, n: int)
    requires
        n <= es.len(),
    ensures
        find_entry_upto(es, name, n) matches Some(i) ==> 0 <= i < n && es[i].name == name && forall|
            j: int,
        | 0 <= j < i ==> (#[trigger] es[j]).name != name,
        find_entry_upto(es, name, n) is None ==> forall|j: int|
            0 <= j < n ==> (#[trigger] es[j]).name != name,
    decreases n,
{
    if n > 0 {
        lemma_find_entry_upto(es, name, n - 1);
    }
}

/// Find the first entry named `name`.
fn find_entry_vec(entries: &Vec<ZipEntry>, name: &[u8]) -> (r: Option<usize>)
    ensures
        match r {
            Some(i) => Some(i as int) == find_entry(entry_views(entries@), name@) && i
                < entries@.len(),
            None => find_entry(entry_views(entries@), name@) is None,
        },
{
    let ghost es = entry_views(entries@);
    let n: usize = entries.len();
    let mut k: usize = 0;
    proof {
        lemma_find_entry_upto(es, name@, es.len() as int);
    }
    while k < n
        invariant
            n == es.len(),
            es == entry_views(entries@),
            0 <= k <= n,
            forall|j: int| 0 <= j < k ==> (#[trigger] es[j]).name != name@,
            find_entry(es, name@) matches Some(i) ==> 0 <= i < n && es[i].name == name@,
            find_entry(es, name@) matches Some(i) ==> forall|j: int| 0 <= j < i ==> (
            #[trigger] es[j]).name != name@,
            find_entry(es, name@) is None ==> forall|j: int| 0 <= j < n ==> (#[trigger] es[j]).name
                != name@,
        decreases n - k,
    {
        proof {
            assert(es[k as int] == entries@[k as int]@);
        }
        if bytes_eq(entries[k].name.as_slice(), name) {
            return Some(k);
        }
        k = k + 1;
    }
    None
}

/// The media directory prefix of a source package.
pub open spec fn media_prefix() -> Seq<u8> {
    "word/media/".spec_bytes()
}

/// `s` begins with `p`.
pub open spec fn starts_with_seq(s: Seq<u8>, p: Seq<u8>) -> bool {
    is_match_at(s, p, 0)
}

/// Does `s` begin with `p`?
fn starts_with_bytes(s: &[u8], p: &[u8]) -> (r: bool)
    ensures
        r <==> starts_with_seq(s@, p@),
{
    if p.len() <= s.len() {
        match_at(s, p, 0)
    } else {
        proof {
            assert(!is_match_at(s@, p@, 0));
        }
        false
    }
}

/// The default Unix mode where an entry reports none.
pub open spec fn mode_or_default(m: Option<u32>) -> u32 {
    match m {
        Some(x) => x,
        None => 0o644,
    }
}

/// The media entries of one source, carried over under their original
/// names with the writer's default method and mode.
pub open spec fn media_of(es: Seq<ZipEntryView>) -> Seq<ZipEntryView>
    decreases es.len(),
{
    if es.len() == 0 {
        Seq::<ZipEntryView>::empty()
    } else {
        let rest = media_of(es.drop_last());
        if starts_with_seq(es.last().name, media_prefix()) {
            rest.push(
                ZipEntryView { name: es.last().name, data: es.last().data, method: None, mode: None },
            )
        } else {
            rest
        }
    }
}

/// The first source's entries that the merge copies through unchanged:
/// everything but the body part, the relationship manifest, and the media
/// directory; each keeps its method and gets a defaulted mode.
pub open spec fn kept_base(es: Seq<ZipEntryView>) -> Seq<ZipEntryView>
    decreases es.len(),
{
    if es.len() == 0 {
        Seq::<ZipEntryView>::empty()
    } else {
        let rest = kept_base(es.drop_last());
        let e = es.last();
        if e.name != doc_part_name() && e.name != rels_part_name() && !starts_with_seq(
            e.name,
            media_prefix(),
        ) {
            rest.push(
                ZipEntryView {
                    name: e.name,
                    data: e.data,
                    method: e.method,
                    mode: Some(mode_or_default(e.mode)),
                },
            )
        } else {
            rest
        }
    }
}

/// Import one manifest event into the combined relationship table: a
/// `Relationship` element with a non-empty identifier binds it, a later
/// binding overwriting an earlier one. `None` where an attribute is
/// malformed.
pub open spec fn import_rel_event(tbl: Seq<(Seq<u8>, RelView)>, ev: XmlEventView) -> Option<
    Seq<(Seq<u8>, RelView)>,
> {
    match ev {
        XmlEventView::Empty(raw, nl) => if raw.take(nl as int) == "Relationship".spec_bytes() {
            match attrs_of(raw, nl) {
                Some(attrs) => {
                    let id = attr_last(attrs, "Id".spec_bytes());
                    let typ = attr_last(attrs, "Type".spec_bytes());
                    let tgt = attr_last(attrs, "Target".spec_bytes());
                    if id.len() > 0 {
                        Some(insert_pair(tbl, id, RelView { id, typ, target: tgt }))
                    } else {
                        Some(tbl)
                    }
                },
                None => None,
            }
        } else {
            Some(tbl)
        },
        _ => Some(tbl),
    }
}

/// Import a whole manifest event stream.
pub open spec fn import_rels_events(tbl: Seq<(Seq<u8>, RelView)>, evs: Seq<XmlEventView>) -> Option<
    Seq<(Seq<u8>, RelView)>,
>
    decreases evs.len(),
{
    if evs.len() == 0 {
        Some(tbl)
    } else {
        match import_rels_events(tbl, evs.drop_last()) {
            Some(t) => import_rel_event(t, evs.last()),
            None => None,
        }
    }
}

/// Import one source's relationship manifest, if it has one.
pub open spec fn import_archive_rels(tbl: Seq<(Seq<u8>, RelView)>, es: Seq<ZipEntryView>) -> Option<
    Seq<(Seq<u8>, RelView)>,
> {
    match find_entry(es, rels_part_name()) {
        Some(k) => match xml_events_of(es[k].data) {
            Some(evs) => import_rels_events(tbl, evs),
            None => None,
        },
        None => Some(tbl),
    }
}

/// A failed import stays failed as the scan continues.
pub proof fn lemma_import_none_persists(
    tbl: Seq<(Seq<u8>, RelView)>,
    evs: Seq<XmlEventView>,
    i: int,
    j: int,
)
    requires
        0 <= i <= j <= evs.len(),
        import_rels_events(tbl, evs.take(i)) is None,
    ensures
        import_rels_events(tbl, evs.take(j)) is None,
    decreases j - i,
{
    if j > i {
        lemma_import_none_persists(tbl, evs, i, j - 1);
        assert(evs.take(j).drop_last() =~= evs.take(j - 1));
    }
}

/// Import one source archive's manifest into the combined table.
fn import_archive_rels_exec(entries: &Vec<ZipEntry>, tbl: &mut Vec<(Vec<u8>, Relationship)>) -> (r:
    Result<(), DocxError>)
    requires
        unique_keys(rel_pairs_view(old(tbl)@)),
    ensures
        unique_keys(rel_pairs_view(final(tbl)@)),
        match import_archive_rels(rel_pairs_view(old(tbl)@), entry_views(entries@)) {
            Some(t) => r is Ok && rel_pairs_view(final(tbl)@) == t,
            None => r is Err,
        },
        r is Err ==> r matches Err(DocxError::Xml(_)),
{
    let ghost es = entry_views(entries@);
    let ghost t0 = rel_pairs_view(tbl@);
    let k = match find_entry_vec(entries, "word/_rels/document.xml.rels".as_bytes()) {
        Some(k) => k,
        None => {
            return Ok(());
        },
    };
    proof {
        assert(es[k as int] == entries@[k as int]@);
    }
    let events = match parse_xml_events(&entries[k].data) {
        Ok(e) => e,
        Err(e) => {
            return Err(e);
        },
    };
    let ghost evs = event_views(events@);
    let n: usize = events.len();
    let mut m: usize = 0;
    proof {
        assert(evs.take(0) =~= Seq::<XmlEventView>::empty());
    }
    while m < n
        invariant
            evs == event_views(events@),
            n == events@.len(),
            0 <= m <= n,
            forall|j: int| 0 <= j < n ==> ev_wf(#[trigger] events@[j]@),
            unique_keys(rel_pairs_view(tbl@)),
            import_rels_events(t0, evs.take(m as int)) == Some(rel_pairs_view(tbl@)),
            t0 == rel_pairs_view(old(tbl)@),
            es == entry_views(entries@),
            find_entry(es, rels_part_name()) == Some(k as int),
            k < es.len(),
            xml_events_of(es[k as int].data) == Some(evs),
        decreases n - m,
    {
        proof {
            assert(evs.take(m + 1).drop_last() =~= evs.take(m as int));
            assert(evs.take(m + 1).last() == events@[m as int]@);
        }
        let ghost pre_tbl = rel_pairs_view(tbl@);
        match &events[m] {
            XmlEvent::Empty(raw, nl) => {
                let name = vstd::slice::slice_subrange(raw.as_slice(), 0, *nl);
                proof {
                    assert(raw@.subrange(0, *nl as int) =~= raw@.take(*nl as int));
                }
                if bytes_eq(name, "Relationship".as_bytes()) {
                    let attrs = match parse_attributes(raw, *nl) {
                        Ok(a) => a,
                        Err(e) => {
                            proof {
                                assert(import_rel_event(pre_tbl, evs[m as int]) is None);
                                assert(import_rels_events(t0, evs.take(m + 1)) is None);
                                lemma_import_none_persists(t0, evs, m + 1, evs.len() as int);
                                assert(evs.take(evs.len() as int) =~= evs);
                            }
                            return Err(e);
                        },
                    };
                    let id = attr_pick(&attrs, "Id".as_bytes());
                    let typ = attr_pick(&attrs, "Type".as_bytes());
                    let tgt = attr_pick(&attrs, "Target".as_bytes());
                    if id.len() > 0 {
                        proof {
                            lemma_insert_pair_unique(
                                pre_tbl,
                                id@,
                                RelView { id: id@, typ: typ@, target: tgt@ },
                            );
                        }
                        let key = clone_bytes(&id);
                        upsert_rel(tbl, key, Relationship { id, rel_type: typ, target: tgt });
                    }
                }
            },
            _ => {},
        }
        m = m + 1;
    }
    proof {
        assert(evs.take(n as int) =~= evs);
    }
    Ok(())
}

/// Find `key` in a relationship table.
fn find_key_rel(pairs: &Vec<(Vec<u8>, Relationship)>, key: &[u8]) -> (r: Option<usize>)
    ensures
        match r {
            Some(i) => Some(i as int) == find_key(rel_pairs_view(pairs@), key@) && i
                < pairs@.len(),
            None => find_key(rel_pairs_view(pairs@), key@) is None,
        },
{
    let ghost pv = rel_pairs_view(pairs@);
    let n: usize = pairs.len();
    let mut k: usize = 0;
    proof {
        lemma_find_key_upto(pv, key@, pv.len() as int);
    }
    while k < n
        invariant
            n == pv.len(),
            pv == rel_pairs_view(pairs@),
            0 <= k <= n,
            forall|j: int| 0 <= j < k ==> (#[trigger] pv[j]).0 != key@,
            find_key(pv, key@) matches Some(i) ==> 0 <= i < n && pv[i].0 == key@,
            find_key(pv, key@) matches Some(i) ==> forall|j: int| 0 <= j < i ==> (
            #[trigger] pv[j]).0 != key@,
            find_key(pv, key@) is None ==> forall|j: int| 0 <= j < n ==> (#[trigger] pv[j]).0
                != key@,
        decreases n - k,
    {
        proof {
            assert(pv[k as int] == (pairs@[k as int].0@, pairs@[k as int].1@));
        }
        if bytes_eq(pairs[k].0.as_slice(), key) {
            return Some(k);
        }
        k = k + 1;
    }
    None
}

/// Bind `key` in the relationship table, overwriting or appending.
fn upsert_rel(pairs: &mut Vec<(Vec<u8>, Relationship)>, key: Vec<u8>, val: Relationship)
    ensures
        rel_pairs_view(final(pairs)@) == insert_pair(rel_pairs_view(old(pairs)@), key@, val@),
{
    let ghost pv = rel_pairs_view(pairs@);
    let ghost vv = val@;
    match find_key_rel(pairs, key.as_slice()) {
        Some(i) => {
            pairs.set(i, (key, val));
            proof {
                assert(rel_pairs_view(pairs@) =~= pv.update(i as int, (key@, vv)));
            }
        },
        None => {
            pairs.push((key, val));
            proof {
                assert(rel_pairs_view(pairs@) =~= pv.push((key@, vv)));
            }
        },
    }
}


/// The inner body content of one source package: the serialized children
/// of its body part's `w:body` element, or empty where the package holds
/// no body part. `None` where the body part is malformed.
pub open spec fn body_of_archive(es: Seq<ZipEntryView>) -> Option<Seq<u8>> {
    match find_entry(es, doc_part_name()) {
        Some(k) => body_content_spec(es[k].data),
        None => Some(Seq::<u8>::empty()),
    }
}

/// The concatenated body content of the sources, separated by the policy.
pub open spec fn merged_content(archs: Seq<Seq<u8>>, c: DocxConcat) -> Option<Seq<u8>>
    decreases archs.len(),
{
    if archs.len() == 0 {
        Some(Seq::<u8>::empty())
    } else {
        match merged_content(archs.drop_last(), c) {
            Some(pre) => match zip_entries_of(archs.last()) {
                Some(es) => match body_of_archive(es) {
                    Some(b) => Some(
                        if archs.len() == 1 {
                            pre + b
                        } else {
                            pre + separator_bytes(c) + b
                        },
                    ),
                    None => None,
                },
                None => None,
            },
            None => None,
        }
    }
}

/// The media entries collected from every source, in source order.
pub open spec fn merged_media(archs: Seq<Seq<u8>>) -> Option<Seq<ZipEntryView>>
    decreases archs.len(),
{
    if archs.len() == 0 {
        Some(Seq::<ZipEntryView>::empty())
    } else {
        match merged_media(archs.drop_last()) {
            Some(md) => match zip_entries_of(archs.last()) {
                Some(es) => Some(md + media_of(es)),
                None => None,
            },
            None => None,
        }
    }
}

/// The combined relationship table of every source, imported in order.
pub open spec fn merged_table(archs: Seq<Seq<u8>>) -> Option<Seq<(Seq<u8>, RelView)>>
    decreases archs.len(),
{
    if archs.len() == 0 {
        Some(Seq::<(Seq<u8>, RelView)>::empty())
    } else {
        match merged_table(archs.drop_last()) {
            Some(t) => match zip_entries_of(archs.last()) {
                Some(es) => import_archive_rels(t, es),
                None => None,
            },
            None => None,
        }
    }
}

pub proof fn lemma_merged_content_none(archs: Seq<Seq<u8>>, c: DocxConcat, i: int, j: int)
    requires
        0 <= i <= j <= archs.len(),
        merged_content(archs.take(i), c) is None,
    ensures
        merged_content(archs.take(j), c) is None,
    decreases j - i,
{
    if j > i {
        lemma_merged_content_none(archs, c, i, j - 1);
        assert(archs.take(j).drop_last() =~= archs.take(j - 1));
    }
}

pub proof fn lemma_merged_table_none(archs: Seq<Seq<u8>>, i: int, j: int)
    requires
        0 <= i <= j <= archs.len(),
        merged_table(archs.take(i)) is None,
    ensures
        merged_table(archs.take(j)) is None,
    decreases j - i,
{
    if j > i {
        lemma_merged_table_none(archs, i, j - 1);
        assert(archs.take(j).drop_last() =~= archs.take(j - 1));
    }
}

/// The fixed head of the merged body document: the declaration, the
/// document element with its namespace set, and the opening body tag.
pub open spec fn merge_doc_header() -> Seq<u8> {
    "<?xml version=\"1.0\" encoding=\"UTF-8\"?>\n        <w:document \n            xmlns:wpc=\"http://schemas.microsoft.com/office/word/2010/wordprocessingCanvas\"\n            xmlns:mc=\"http://schemas.openxmlformats.org/markup-compatibility/2006\"\n            xmlns:o=\"urn:schemas-microsoft-com:office:office\"\n            xmlns:r=\"http://schemas.openxmlformats.org/officeDocument/2006/relationships\"\n            xmlns:m=\"http://schemas.openxmlformats.org/officeDocument/2006/math\"\n            xmlns:v=\"urn:schemas-microsoft-com:vml\"\n            xmlns:wp14=\"http://schemas.microsoft.com/office/word/2010/wordprocessingDrawing\"\n            xmlns:wp=\"http://schemas.openxmlformats.org/drawingml/2006/wordprocessingDrawing\"\n            xmlns:w=\"http://schemas.openxmlformats.org/wordprocessingml/2006/main\"\n            xmlns:w14=\"http://schemas.microsoft.com/office/word/2010/wordml\"\n            xmlns:w10=\"urn:schemas-microsoft-com:office:word\"\n            xmlns:w15=\"http://schemas.microsoft.com/office/word/2012/wordml\"\n            xmlns:wpg=\"http://schemas.microsoft.com/office/word/2010/wordprocessingGroup\"\n            xmlns:wpi=\"http://schemas.microsoft.com/office/word/2010/wordprocessingInk\"\n            xmlns:wne=\"http://schemas.microsoft.com/office/word/2006/wordml\"\n            xmlns:wps=\"http://schemas.microsoft.com/office/word/2010/wordprocessingShape\"\n            xmlns:wpsCustomData=\"http://www.wps.cn/officeDocument/2013/wpsCustomData\"\n            mc:Ignorable=\"w14 w15 wp14\">\n            <w:body>".spec_bytes()
}

/// The fixed tail of the merged body document.
pub open spec fn merge_doc_footer() -> Seq<u8> {
    "</w:body>\n        </w:document>".spec_bytes()
}

/// The head of the merged relationship manifest.
pub open spec fn merged_rels_header() -> Seq<u8> {
    "<?xml version=\"1.0\" encoding=\"UTF-8\" standalone=\"yes\"?>\n        <Relationships xmlns=\"http://schemas.openxmlformats.org/package/2006/relationships\">".spec_bytes()
}

/// One line of the merged relationship manifest.
pub open spec fn rel_line(key: Seq<u8>, r: RelView) -> Seq<u8> {
    "<Relationship Id=\"".spec_bytes() + key + "\" Type=\"".spec_bytes() + r.typ
        + "\" Target=\"".spec_bytes() + r.target + "\"/>".spec_bytes()
}

/// The lines of the merged relationship manifest, in table order.
pub open spec fn rels_lines(tbl: Seq<(Seq<u8>, RelView)>) -> Seq<u8>
    decreases tbl.len(),
{
    if tbl.len() == 0 {
        Seq::<u8>::empty()
    } else {
        rels_lines(tbl.drop_last()) + rel_line(tbl.last().0, tbl.last().1)
    }
}

/// The whole merged relationship manifest.
pub open spec fn merged_rels_bytes(tbl: Seq<(Seq<u8>, RelView)>) -> Seq<u8> {
    merged_rels_header() + rels_lines(tbl) + "</Relationships>".spec_bytes()
}

/// The views of the sources' bytes.
pub open spec fn archs_of(inputs: Seq<Vec<u8>>) -> Seq<Seq<u8>> {
    inputs.map_values(|v: Vec<u8>| v@)
}

/// The entry list of the merged package: the first source's structural
/// entries, the merged body document under the first source's document
/// options, every source's media, and the combined relationship manifest.
/// `None` where a source fails to read, the first source has no body
/// part, a body part is malformed, or a manifest attribute is malformed.
pub open spec fn merge_entries_spec(archs: Seq<Seq<u8>>, c: DocxConcat) -> Option<
    Seq<ZipEntryView>,
> {
    match zip_entries_of(archs[0]) {
        None => None,
        Some(es0) => match find_entry(es0, doc_part_name()) {
            None => None,
            Some(d0) => match merged_content(archs, c) {
                None => None,
                Some(content) => match merged_media(archs) {
                    None => None,
                    Some(media) => match merged_table(archs) {
                        None => None,
                        Some(tbl) => Some(
                            kept_base(es0) + seq![
                                ZipEntryView {
                                    name: doc_part_name(),
                                    data: merge_doc_header() + content + merge_doc_footer(),
                                    method: es0[d0].method,
                                    mode: Some(mode_or_default(es0[d0].mode)),
                                },
                            ] + media + seq![
                                ZipEntryView {
                                    name: rels_part_name(),
                                    data: merged_rels_bytes(tbl),
                                    method: None,
                                    mode: None,
                                },
                            ],
                        ),
                    },
                },
            },
        },
    }
}

/// Merge the source packages, in order, into one package, separating
/// their body contents by the given policy. The first source provides the
/// structure; relationship identifiers that collide across sources are
/// overwritten by the later source. No partial output: any failure aborts
/// the whole operation.
#[verifier::rlimit(100)]
pub fn merge_docx(inputs: &Vec<Vec<u8>>, concat: DocxConcat) -> (r: Result<Vec<u8>, DocxError>)
    requires
        inputs@.len() >= 1,
    ensures
        r is Ok <==> (merge_entries_spec(archs_of(inputs@), concat) matches Some(want)
            && crate::zip_store::zip_write_of(want) is Some),
        r matches Ok(out) ==> out@ == crate::zip_store::zip_write_of(
            merge_entries_spec(archs_of(inputs@), concat).unwrap(),
        ).unwrap(),
        r matches Ok(out) ==> {
            &&& merge_entries_spec(archs_of(inputs@), concat) matches Some(want)
            &&& zip_entries_of(out@) matches Some(res)
            &&& crate::docx::entries_correspond(res, want)
        },
        r is Err ==> r matches Err(DocxError::Zip(_)) || r matches Err(DocxError::Xml(_)) || r
            matches Err(DocxError::MissingDocumentPart) || r matches Err(DocxError::Utf8),
{
    let ghost archs = archs_of(inputs@);
    let n: usize = inputs.len();
    let es0_vec = match crate::zip_store::read_zip_entries(&inputs[0]) {
        Ok(e) => e,
        Err(e) => {
            proof {
                assert(archs[0] == inputs@[0]@);
            }
            return Err(e);
        },
    };
    proof {
        assert(archs[0] == inputs@[0]@);
    }
    let ghost es0 = entry_views(es0_vec@);
    let d0 = match find_entry_vec(&es0_vec, "word/document.xml".as_bytes()) {
        Some(d) => d,
        None => {
            return Err(DocxError::MissingDocumentPart);
        },
    };
    let mut content: Vec<u8> = Vec::new();
    let mut media: Vec<ZipEntry> = Vec::new();
    let mut tbl: Vec<(Vec<u8>, Relationship)> = Vec::new();
    let mut i: usize = 0;
    proof {
        assert(archs.take(0) =~= Seq::<Seq<u8>>::empty());
        assert(entry_views(media@) =~= Seq::<ZipEntryView>::empty());
        assert(rel_pairs_view(tbl@) =~= Seq::<(Seq<u8>, RelView)>::empty());
    }
    while i < n
        invariant
            archs == archs_of(inputs@),
            n == inputs@.len(),
            n >= 1,
            archs.len() == n,
            0 <= i <= n,
            zip_entries_of(archs[0]) == Some(es0),
            find_entry(es0, doc_part_name()) == Some(d0 as int),
            merged_content(archs.take(i as int), concat) == Some(content@),
            merged_media(archs.take(i as int)) == Some(entry_views(media@)),
            merged_table(archs.take(i as int)) == Some(rel_pairs_view(tbl@)),
            unique_keys(rel_pairs_view(tbl@)),
        decreases n - i,
    {
        proof {
            assert(archs.take(i + 1).drop_last() =~= archs.take(i as int));
            assert(archs.take(i + 1).last() == archs[i as int]);
            assert(archs[i as int] == inputs@[i as int]@);
        }
        let entries = match crate::zip_store::read_zip_entries(&inputs[i]) {
            Ok(e) => e,
            Err(e) => {
                proof {
                    assert(merged_content(archs.take(i + 1), concat) is None);
                    lemma_merged_content_none(archs, concat, i + 1, archs.len() as int);
                    assert(archs.take(archs.len() as int) =~= archs);
                }
                return Err(e);
            },
        };
        let ghost esi = entry_views(entries@);
        let body = match find_entry_vec(&entries, "word/document.xml".as_bytes()) {
            Some(di) => {
                proof {
                    assert(esi[di as int] == entries@[di as int]@);
                }
                match extract_body_content(&entries[di].data) {
                    Ok(b) => b,
                    Err(e) => {
                        proof {
                            assert(body_of_archive(esi) is None);
                            assert(merged_content(archs.take(i + 1), concat) is None);
                            lemma_merged_content_none(archs, concat, i + 1, archs.len() as int);
                            assert(archs.take(archs.len() as int) =~= archs);
                        }
                        return Err(e);
                    },
                }
            },
            None => Vec::new(),
        };
        let ghost pre_content = content@;
        if i > 0 {
            write_separator(&mut content, concat);
        }
        extend_bytes(&mut content, body.as_slice());
        proof {
            if i > 0 {
                assert(content@ =~= pre_content + separator_bytes(concat) + body@);
            } else {
                assert(content@ =~= pre_content + body@);
            }
        }
        let ghost pre_media = entry_views(media@);
        let en: usize = entries.len();
        let mut j: usize = 0;
        proof {
            assert(esi.take(0) =~= Seq::<ZipEntryView>::empty());
            assert(pre_media + media_of(esi.take(0)) =~= pre_media);
        }
        while j < en
            invariant
                esi == entry_views(entries@),
                en == entries@.len(),
                0 <= j <= en,
                entry_views(media@) == pre_media + media_of(esi.take(j as int)),
            decreases en - j,
        {
            proof {
                assert(esi.take(j + 1).drop_last() =~= esi.take(j as int));
                assert(esi.take(j + 1).last() == entries@[j as int]@);
            }
            if starts_with_bytes(entries[j].name.as_slice(), "word/media/".as_bytes()) {
                let ghost pre = entry_views(media@);
                media.push(
                    ZipEntry {
                        name: clone_bytes(&entries[j].name),
                        data: clone_bytes(&entries[j].data),
                        method: None,
                        mode: None,
                    },
                );
                proof {
                    assert(entry_views(media@) =~= pre.push(
                        ZipEntryView {
                            name: entries@[j as int]@.name,
                            data: entries@[j as int]@.data,
                            method: None,
                            mode: None,
                        },
                    ));
                    assert(pre.push(
                        ZipEntryView {
                            name: entries@[j as int]@.name,
                            data: entries@[j as int]@.data,
                            method: None,
                            mode: None,
                        },
                    ) =~= pre_media + media_of(esi.take(j + 1)));
                }
            } else {
                proof {
                    assert(entry_views(media@) =~= pre_media + media_of(esi.take(j + 1)));
                }
            }
            j = j + 1;
        }
        proof {
            assert(esi.take(en as int) =~= esi);
        }
        match import_archive_rels_exec(&entries, &mut tbl) {
            Ok(_) => {},
            Err(e) => {
                proof {
                    assert(merged_table(archs.take(i + 1)) is None);
                    lemma_merged_table_none(archs, i + 1, archs.len() as int);
                    assert(archs.take(archs.len() as int) =~= archs);
                }
                return Err(e);
            },
        }
        i = i + 1;
    }
    proof {
        assert(archs.take(n as int) =~= archs);
    }
    // Assemble the output entry list from the first source's structure.
    let mut out_entries: Vec<ZipEntry> = Vec::new();
    let mut rest = es0_vec;
    let mut doc_method: Option<zip::CompressionMethod> = None;
    let mut doc_mode: Option<u32> = None;
    let mut idx: usize = 0;
    let total: usize = rest.len();
    proof {
        lemma_find_entry_upto(es0, doc_part_name(), es0.len() as int);
        assert(es0.skip(0) =~= es0);
        assert(entry_views(rest@).len() == rest@.len());
        assert(entry_views(out_entries@) =~= kept_base(es0.take(0)));
    }
    while rest.len() > 0
        invariant
            es0.len() == total,
            0 <= idx <= es0.len(),
            d0 < es0.len(),
            es0[d0 as int].name == doc_part_name(),
            entry_views(rest@) == es0.skip(idx as int),
            entry_views(out_entries@) == kept_base(es0.take(idx as int)),
            idx > d0 ==> doc_method == es0[d0 as int].method && doc_mode == es0[d0 as int].mode,
        decreases rest@.len(),
    {
        proof {
            assert(entry_views(rest@).len() == rest@.len());
            assert(idx < es0.len());
            assert(es0.take(idx + 1).drop_last() =~= es0.take(idx as int));
            assert(es0.take(idx + 1).last() == es0[idx as int]);
        }
        let e = rest.remove(0);
        proof {
            assert(e@ == es0.skip(idx as int)[0]);
            assert(es0.skip(idx as int)[0] == es0[idx as int]);
            assert(es0.skip(idx as int).remove(0) =~= es0.skip(idx + 1));
        }
        let is_doc = bytes_eq(e.name.as_slice(), "word/document.xml".as_bytes());
        let is_rels = bytes_eq(e.name.as_slice(), "word/_rels/document.xml.rels".as_bytes());
        let is_media = starts_with_bytes(e.name.as_slice(), "word/media/".as_bytes());
        if idx == d0 {
            doc_method = e.method;
            doc_mode = e.mode;
            proof {
                assert(entry_views(out_entries@) =~= kept_base(es0.take(idx + 1)));
            }
        } else if !is_doc && !is_rels && !is_media {
            let mode: Option<u32> = match e.mode {
                Some(m) => Some(m),
                None => Some(0o644),
            };
            let ghost pre = entry_views(out_entries@);
            out_entries.push(ZipEntry { name: e.name, data: e.data, method: e.method, mode });
            proof {
                assert(entry_views(out_entries@) =~= pre.push(
                    ZipEntryView {
                        name: es0[idx as int].name,
                        data: es0[idx as int].data,
                        method: es0[idx as int].method,
                        mode: Some(mode_or_default(es0[idx as int].mode)),
                    },
                ));
                assert(pre.push(
                    ZipEntryView {
                        name: es0[idx as int].name,
                        data: es0[idx as int].data,
                        method: es0[idx as int].method,
                        mode: Some(mode_or_default(es0[idx as int].mode)),
                    },
                ) =~= kept_base(es0.take(idx + 1)));
            }
        } else {
            proof {
                assert(entry_views(out_entries@) =~= kept_base(es0.take(idx + 1)));
            }
        }
        idx = idx + 1;
    }
    proof {
        assert(entry_views(rest@).len() == rest@.len());
        assert(idx == es0.len());
        assert(es0.take(idx as int) =~= es0);
    }
    // The merged body document.
    let mut doc_bytes: Vec<u8> = Vec::new();
    extend_bytes(
        &mut doc_bytes,
        "<?xml version=\"1.0\" encoding=\"UTF-8\"?>\n        <w:document \n            xmlns:wpc=\"http://schemas.microsoft.com/office/word/2010/wordprocessingCanvas\"\n            xmlns:mc=\"http://schemas.openxmlformats.org/markup-compatibility/2006\"\n            xmlns:o=\"urn:schemas-microsoft-com:office:office\"\n            xmlns:r=\"http://schemas.openxmlformats.org/officeDocument/2006/relationships\"\n            xmlns:m=\"http://schemas.openxmlformats.org/officeDocument/2006/math\"\n            xmlns:v=\"urn:schemas-microsoft-com:vml\"\n            xmlns:wp14=\"http://schemas.microsoft.com/office/word/2010/wordprocessingDrawing\"\n            xmlns:wp=\"http://schemas.openxmlformats.org/drawingml/2006/wordprocessingDrawing\"\n            xmlns:w=\"http://schemas.openxmlformats.org/wordprocessingml/2006/main\"\n            xmlns:w14=\"http://schemas.microsoft.com/office/word/2010/wordml\"\n            xmlns:w10=\"urn:schemas-microsoft-com:office:word\"\n            xmlns:w15=\"http://schemas.microsoft.com/office/word/2012/wordml\"\n            xmlns:wpg=\"http://schemas.microsoft.com/office/word/2010/wordprocessingGroup\"\n            xmlns:wpi=\"http://schemas.microsoft.com/office/word/2010/wordprocessingInk\"\n            xmlns:wne=\"http://schemas.microsoft.com/office/word/2006/wordml\"\n            xmlns:wps=\"http://schemas.microsoft.com/office/word/2010/wordprocessingShape\"\n            xmlns:wpsCustomData=\"http://www.wps.cn/officeDocument/2013/wpsCustomData\"\n            mc:Ignorable=\"w14 w15 wp14\">\n            <w:body>".as_bytes(),
    );
    extend_bytes(&mut doc_bytes, content.as_slice());
    extend_bytes(&mut doc_bytes, "</w:body>\n        </w:document>".as_bytes());
    proof {
        assert(doc_bytes@ =~= merge_doc_header() + content@ + merge_doc_footer());
    }
    let ghost base_v = entry_views(out_entries@);
    let doc_mode_val: u32 = match doc_mode {
        Some(m) => m,
        None => 0o644,
    };
    out_entries.push(
        ZipEntry {
            name: vstd::slice::slice_to_vec("word/document.xml".as_bytes()),
            data: doc_bytes,
            method: doc_method,
            mode: Some(doc_mode_val),
        },
    );
    let ghost doc_entry_v = ZipEntryView {
        name: doc_part_name(),
        data: merge_doc_header() + content@ + merge_doc_footer(),
        method: es0[d0 as int].method,
        mode: Some(mode_or_default(es0[d0 as int].mode)),
    };
    proof {
        assert(entry_views(out_entries@) =~= base_v.push(doc_entry_v));
    }
    let ghost with_doc_v = entry_views(out_entries@);
    let ghost media_v = entry_views(media@);
    let mut media = media;
    out_entries.append(&mut media);
    proof {
        assert(entry_views(out_entries@) =~= with_doc_v + media_v);
    }
    // The combined relationship manifest.
    let ghost tblv = rel_pairs_view(tbl@);
    let mut rels_bytes: Vec<u8> = Vec::new();
    extend_bytes(
        &mut rels_bytes,
        "<?xml version=\"1.0\" encoding=\"UTF-8\" standalone=\"yes\"?>\n        <Relationships xmlns=\"http://schemas.openxmlformats.org/package/2006/relationships\">".as_bytes(),
    );
    let tn: usize = tbl.len();
    let mut t: usize = 0;
    proof {
        assert(tblv.take(0) =~= Seq::<(Seq<u8>, RelView)>::empty());
        assert(rels_bytes@ =~= merged_rels_header() + rels_lines(tblv.take(0)));
    }
    while t < tn
        invariant
            tblv == rel_pairs_view(tbl@),
            tn == tbl@.len(),
            0 <= t <= tn,
            rels_bytes@ == merged_rels_header() + rels_lines(tblv.take(t as int)),
        decreases tn - t,
    {
        proof {
            assert(tblv.take(t + 1).drop_last() =~= tblv.take(t as int));
            assert(tblv.take(t + 1).last() == tblv[t as int]);
            assert(tblv[t as int] == (tbl@[t as int].0@, tbl@[t as int].1@));
        }
        extend_bytes(&mut rels_bytes, "<Relationship Id=\"".as_bytes());
        extend_bytes(&mut rels_bytes, tbl[t].0.as_slice());
        extend_bytes(&mut rels_bytes, "\" Type=\"".as_bytes());
        extend_bytes(&mut rels_bytes, tbl[t].1.rel_type.as_slice());
        extend_bytes(&mut rels_bytes, "\" Target=\"".as_bytes());
        extend_bytes(&mut rels_bytes, tbl[t].1.target.as_slice());
        extend_bytes(&mut rels_bytes, "\"/>".as_bytes());
        proof {
            assert(rels_bytes@ =~= merged_rels_header() + rels_lines(tblv.take(t + 1)));
        }
        t = t + 1;
    }
    extend_bytes(&mut rels_bytes, "</Relationships>".as_bytes());
    proof {
        assert(tblv.take(tn as int) =~= tblv);
        assert(rels_bytes@ =~= merged_rels_bytes(tblv));
    }
    let ghost pre_rels = entry_views(out_entries@);
    out_entries.push(
        ZipEntry {
            name: vstd::slice::slice_to_vec("word/_rels/document.xml.rels".as_bytes()),
            data: rels_bytes,
            method: None,
            mode: None,
        },
    );
    let ghost rels_entry_v = ZipEntryView {
        name: rels_part_name(),
        data: merged_rels_bytes(tblv),
        method: None,
        mode: None,
    };
    proof {
        assert(entry_views(out_entries@) =~= pre_rels.push(rels_entry_v));
        assert(entry_views(out_entries@) =~= kept_base(es0) + seq![doc_entry_v] + media_v + seq![
            rels_entry_v,
        ]);
        assert(merge_entries_spec(archs, concat) == Some(entry_views(out_entries@)));
    }
    match crate::zip_store::write_zip_entries(&out_entries) {
        Ok(bytes) => Ok(bytes),
        Err(e) => Err(e),
    }
}


/// Law: merging two packages under the page-break policy concatenates
/// document A's body content, one page-break paragraph, then document B's
/// body content, in that order.
pub proof fn lemma_merge_two_page_break(
    a: Seq<u8>,
    b: Seq<u8>,
    esa: Seq<ZipEntryView>,
    esb: Seq<ZipEntryView>,
    ba: Seq<u8>,
    bb: Seq<u8>,
)
    requires
        zip_entries_of(a) == Some(esa),
        zip_entries_of(b) == Some(esb),
        body_of_archive(esa) == Some(ba),
        body_of_archive(esb) == Some(bb),
    ensures
        merged_content(seq![a, b], DocxConcat::PAGE) == Some(ba + page_break_bytes() + bb),
{
    let two = seq![a, b];
    assert(two.drop_last() =~= seq![a]);
    assert(seq![a].drop_last() =~= Seq::<Seq<u8>>::empty());
    assert(merged_content(Seq::<Seq<u8>>::empty(), DocxConcat::PAGE) == Some(Seq::<u8>::empty()));
    assert(merged_content(seq![a], DocxConcat::PAGE) == Some(Seq::<u8>::empty() + ba));
    assert(Seq::<u8>::empty() + ba =~= ba);
    assert(merged_content(two, DocxConcat::PAGE) == Some(ba + separator_bytes(DocxConcat::PAGE) + bb));
}

/// Every identifier bound before an import is still bound after it.
pub proof fn lemma_import_events_keeps_ids(
    tbl: Seq<(Seq<u8>, RelView)>,
    evs: Seq<XmlEventView>,
    key: Seq<u8>,
)
    requires
        find_key(tbl, key) is Some,
        import_rels_events(tbl, evs) is Some,
    ensures
        find_key(import_rels_events(tbl, evs).unwrap(), key) is Some,
    decreases evs.len(),
{
    if evs.len() > 0 {
        lemma_import_events_keeps_ids(tbl, evs.drop_last(), key);
        let t = import_rels_events(tbl, evs.drop_last()).unwrap();
        match evs.last() {
            XmlEventView::Empty(raw, nl) => {
                match attrs_of(raw, nl) {
                    Some(attrs) => {
                        let id = attr_last(attrs, "Id".spec_bytes());
                        let typ = attr_last(attrs, "Type".spec_bytes());
                        let tgt = attr_last(attrs, "Target".spec_bytes());
                        crate::assoc::lemma_insert_pair_keeps_keys(
                            t,
                            id,
                            RelView { id, typ, target: tgt },
                            key,
                        );
                    },
                    None => {},
                }
            },
            _ => {},
        }
    }
}

/// Law: a relationship identifier present after the first source's import
/// is still present after a later source's import — merging keeps both
/// sources' identifiers in the combined manifest, a later source only
/// ever overwriting a colliding identifier's binding.
pub proof fn lemma_import_archive_keeps_ids(
    tbl: Seq<(Seq<u8>, RelView)>,
    es: Seq<ZipEntryView>,
    key: Seq<u8>,
)
    requires
        find_key(tbl, key) is Some,
        import_archive_rels(tbl, es) is Some,
    ensures
        find_key(import_archive_rels(tbl, es).unwrap(), key) is Some,
{
    match find_entry(es, rels_part_name()) {
        Some(k) => {
            match xml_events_of(es[k].data) {
                Some(evs) => {
                    lemma_import_events_keeps_ids(tbl, evs, key);
                },
                None => {},
            }
        },
        None => {},
    }
}

} // verus!
