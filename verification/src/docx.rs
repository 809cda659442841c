//! The template registry: the caller's text and image substitutions, the
//! source deduplication cache, and the generation of unique relationship
//! identifiers.

use vstd::prelude::*;
use vstd::string::StringSliceAdditionalSpecFns;

use crate::assoc::{
    find_key, insert_pair, lemma_find_key_upto, lemma_insert_pair_keeps_keys,
    lemma_insert_pair_lookup, lemma_insert_pair_unique, lookup_val, unique_keys,
};
use crate::bytes_util::{
    bytes_eq, clone_bytes, dec_rep, extend_bytes, lemma_dec_rep_digits, lemma_dec_rep_injective,
    u64_to_dec,
};
use crate::error::DocxError;
use crate::image::{
    DocxImage, DocxImageView, fitted_size_spec, get_image_size, image_dims_of, uuid_simple_bytes,
};
use crate::bytes_util::{contains_pat, contains_seq};
use crate::drawing::{create_drawing_element, drawing_events_spec, lemma_drawing_events_wf};
use crate::substitute::{
    best_key_at, lemma_substitute_occurrence, pairs_view, substitute, substitute_spec,
};
use crate::zip_store::{ZipEntry, ZipEntryView, zip_entries_of};
use crate::xml::{
    XmlEvent, XmlEventView, clone_event, ev_wf, event_views, lemma_event_views_add,
    parse_xml_events, serialize_xml_events, xml_concat, xml_events_of,
};

verus! {

/// The identifier generated for the `tag`-th asset: the fixed prefix,
/// the tag in decimal, a separator, and an arbitrary random suffix.
pub open spec fn is_gen_id(id: Seq<u8>, tag: nat) -> bool {
    exists|suffix: Seq<u8>|
        id == "rId".spec_bytes() + dec_rep(tag) + seq![117u8] + suffix
}

/// Identifiers generated for distinct tags are distinct, whatever their
/// random suffixes hold: the decimal tag is delimited by a non-digit.
pub proof fn lemma_gen_id_distinct(id1: Seq<u8>, t1: nat, id2: Seq<u8>, t2: nat)
    requires
        is_gen_id(id1, t1),
        is_gen_id(id2, t2),
        t1 != t2,
    ensures
        id1 != id2,
{
    let p = "rId".spec_bytes();
    let d1 = dec_rep(t1);
    let d2 = dec_rep(t2);
    lemma_dec_rep_digits(t1);
    lemma_dec_rep_digits(t2);
    lemma_dec_rep_injective(t1, t2);
    let s1 = choose|suffix: Seq<u8>| id1 == p + d1 + seq![117u8] + suffix;
    let s2 = choose|suffix: Seq<u8>| id2 == p + d2 + seq![117u8] + suffix;
    if id1 == id2 {
        if d1.len() == d2.len() {
            assert(exists|k: int| 0 <= k < d1.len() && d1[k] != d2[k]) by {
                if forall|k: int| 0 <= k < d1.len() ==> #[trigger] d1[k] == d2[k] {
                    assert(d1 =~= d2);
                }
            }
            let k = choose|k: int| 0 <= k < d1.len() && d1[k] != d2[k];
            assert(id1[p.len() + k] == d1[k]);
            assert(id2[p.len() + k] == d2[k]);
        } else if d1.len() < d2.len() {
            let pos = p.len() + d1.len();
            assert(id1[pos as int] == 117);
            assert(id2[pos as int] == d2[d1.len() as int]);
        } else {
            let pos = p.len() + d2.len();
            assert(id2[pos as int] == 117);
            assert(id1[pos as int] == d1[d2.len() as int]);
        }
    }
}

/// The identifier was generated for some tag below `n`.
pub open spec fn has_tag_below(id: Seq<u8>, n: nat) -> bool {
    exists|t: nat| t < n && is_gen_id(id, t)
}

/// The mathematical shape of a [`DocxTemplate`].
pub struct TemplateView {
    pub text: Seq<(Seq<u8>, Seq<u8>)>,
    pub images: Seq<(Seq<u8>, Option<DocxImageView>)>,
    pub sources: Seq<(Seq<u8>, Seq<u8>)>,
    pub next_id: u64,
}

/// The registry invariant: every map's keys are distinct, every resolved
/// asset carries an identifier generated below the counter, those
/// identifiers are pairwise distinct, and every cached source points at a
/// registered placeholder.
pub open spec fn template_wf(v: TemplateView) -> bool {
    &&& unique_keys(v.text)
    &&& unique_keys(v.images)
    &&& unique_keys(v.sources)
    &&& forall|i: int|
        0 <= i < v.images.len() ==> ((#[trigger] v.images[i]).1 matches Some(a) ==> has_tag_below(
            a.id,
            v.next_id as nat,
        ))
    &&& forall|i: int, j: int|
        0 <= i < j < v.images.len() ==> match ((#[trigger] v.images[i]).1, (
        #[trigger] v.images[j]).1) {
            (Some(a), Some(b)) => a.id != b.id,
            _ => true,
        }
    &&& forall|i: int|
        0 <= i < v.sources.len() ==> find_key(v.images, (#[trigger] v.sources[i]).1) is Some
}

/// The deep view of an image replacement list.
pub open spec fn image_pairs_view(s: Seq<(Vec<u8>, Option<DocxImage>)>) -> Seq<
    (Seq<u8>, Option<DocxImageView>),
> {
    s.map_values(
        |p: (Vec<u8>, Option<DocxImage>)|
            (
                p.0@,
                match p.1 {
                    Some(img) => Some(img@),
                    None => None,
                },
            ),
    )
}

/// A document template's registry: the text substitutions, the image
/// substitutions, the source deduplication cache, and the counter that
/// keeps generated relationship identifiers distinct.
pub struct DocxTemplate {
    text_replacements: Vec<(Vec<u8>, Vec<u8>)>,
    image_replacements: Vec<(Vec<u8>, Option<DocxImage>)>,
    images_map: Vec<(Vec<u8>, Vec<u8>)>,
    next_id: u64,
}

impl View for DocxTemplate {
    type V = TemplateView;

    closed spec fn view(&self) -> TemplateView {
        TemplateView {
            text: pairs_view(self.text_replacements@),
            images: image_pairs_view(self.image_replacements@),
            sources: pairs_view(self.images_map@),
            next_id: self.next_id,
        }
    }
}

/// Find `key` in a byte-pair list.
fn find_key_bytes(pairs: &Vec<(Vec<u8>, Vec<u8>)>, key: &[u8]) -> (r: Option<usize>)
    ensures
        match r {
            Some(i) => Some(i as int) == find_key(pairs_view(pairs@), key@) && i < pairs@.len(),
            None => find_key(pairs_view(pairs@), key@) is None,
        },
{
    let ghost pv = pairs_view(pairs@);
    let n: usize = pairs.len();
    let mut k: usize = 0;
    proof {
        lemma_find_key_upto(pv, key@, pv.len() as int);
    }
    while k < n
        invariant
            n == pv.len(),
            pv == pairs_view(pairs@),
            0 <= k <= n,
            forall|j: int| 0 <= j < k ==> (#[trigger] pv[j]).0 != key@,
            find_key(pv, key@) matches Some(i) ==> 0 <= i < n && pv[i].0 == key@,
            find_key(pv, key@) matches Some(i) ==> forall|j: int| 0 <= j < i ==> (
            #[trigger] pv[j]).0 != key@,
            find_key(pv, key@) is None ==> forall|j: int| 0 <= j < n ==> (#[trigger] pv[j]).0
                != key@,
        decreases n - k,
    {
        proof {
            assert(pv[k as int] == (pairs@[k as int].0@, pairs@[k as int].1@));
        }
        if bytes_eq(pairs[k].0.as_slice(), key) {
            return Some(k);
        }
        k = k + 1;
    }
    None
}

/// Find `key` in an image replacement list.
fn find_key_images(pairs: &Vec<(Vec<u8>, Option<DocxImage>)>, key: &[u8]) -> (r: Option<usize>)
    ensures
        match r {
            Some(i) => Some(i as int) == find_key(image_pairs_view(pairs@), key@) && i
                < pairs@.len(),
            None => find_key(image_pairs_view(pairs@), key@) is None,
        },
{
    let ghost pv = image_pairs_view(pairs@);
    let n: usize = pairs.len();
    let mut k: usize = 0;
    proof {
        lemma_find_key_upto(pv, key@, pv.len() as int);
    }
    while k < n
        invariant
            n == pv.len(),
            pv == image_pairs_view(pairs@),
            0 <= k <= n,
            forall|j: int| 0 <= j < k ==> (#[trigger] pv[j]).0 != key@,
            find_key(pv, key@) matches Some(i) ==> 0 <= i < n && pv[i].0 == key@,
            find_key(pv, key@) matches Some(i) ==> forall|j: int| 0 <= j < i ==> (
            #[trigger] pv[j]).0 != key@,
            find_key(pv, key@) is None ==> forall|j: int| 0 <= j < n ==> (#[trigger] pv[j]).0
                != key@,
        decreases n - k,
    {
        proof {
            assert(pv[k as int].0 == pairs@[k as int].0@);
        }
        if bytes_eq(pairs[k].0.as_slice(), key) {
            return Some(k);
        }
        k = k + 1;
    }
    None
}

/// Bind `key` to `val` in a byte-pair list, overwriting or appending.
fn upsert_bytes(pairs: &mut Vec<(Vec<u8>, Vec<u8>)>, key: Vec<u8>, val: Vec<u8>)
    ensures
        pairs_view(final(pairs)@) == insert_pair(pairs_view(old(pairs)@), key@, val@),
{
    let ghost pv = pairs_view(pairs@);
    match find_key_bytes(pairs, key.as_slice()) {
        Some(i) => {
            pairs.set(i, (key, val));
            proof {
                assert(pairs_view(pairs@) =~= pv.update(i as int, (key@, val@)));
            }
        },
        None => {
            pairs.push((key, val));
            proof {
                assert(pairs_view(pairs@) =~= pv.push((key@, val@)));
            }
        },
    }
}

/// Bind `key` to `val` in an image replacement list.
fn upsert_image(pairs: &mut Vec<(Vec<u8>, Option<DocxImage>)>, key: Vec<u8>, val: Option<DocxImage>)
    ensures
        image_pairs_view(final(pairs)@) == insert_pair(
            image_pairs_view(old(pairs)@),
            key@,
            match val {
                Some(img) => Some(img@),
                None => None,
            },
        ),
{
    let ghost pv = image_pairs_view(pairs@);
    let ghost vv: Option<DocxImageView> = match &val {
        Some(img) => Some(img@),
        None => None,
    };
    match find_key_images(pairs, key.as_slice()) {
        Some(i) => {
            pairs.set(i, (key, val));
            proof {
                assert(image_pairs_view(pairs@) =~= pv.update(i as int, (key@, vv)));
            }
        },
        None => {
            pairs.push((key, val));
            proof {
                assert(image_pairs_view(pairs@) =~= pv.push((key@, vv)));
            }
        },
    }
}

impl DocxTemplate {
    /// An empty registry.
    pub fn new() -> (r: Self)
        ensures
            template_wf(r@),
            r@.text == Seq::<(Seq<u8>, Seq<u8>)>::empty(),
            r@.images == Seq::<(Seq<u8>, Option<DocxImageView>)>::empty(),
            r@.sources == Seq::<(Seq<u8>, Seq<u8>)>::empty(),
            r@.next_id == 0,
    {
        let r = DocxTemplate {
            text_replacements: Vec::new(),
            image_replacements: Vec::new(),
            images_map: Vec::new(),
            next_id: 0,
        };
        proof {
            assert(pairs_view(r.text_replacements@) =~= Seq::<(Seq<u8>, Seq<u8>)>::empty());
            assert(image_pairs_view(r.image_replacements@) =~= Seq::<
                (Seq<u8>, Option<DocxImageView>),
            >::empty());
            assert(pairs_view(r.images_map@) =~= Seq::<(Seq<u8>, Seq<u8>)>::empty());
        }
        r
    }

    /// A fresh relationship identifier: the counter keeps it distinct from
    /// every identifier generated before, the random suffix keeps it
    /// unlikely to collide with the template's own.
    fn fresh_relation_id(&mut self) -> (r: Vec<u8>)
        requires
            old(self).next_id < u64::MAX,
        ensures
            is_gen_id(r@, old(self)@.next_id as nat),
            final(self)@.next_id == old(self)@.next_id + 1,
            final(self)@.text == old(self)@.text,
            final(self)@.images == old(self)@.images,
            final(self)@.sources == old(self)@.sources,
    {
        let mut id: Vec<u8> = vstd::slice::slice_to_vec("rId".as_bytes());
        let digits = u64_to_dec(self.next_id);
        extend_bytes(&mut id, digits.as_slice());
        id.push(117);
        let suffix = uuid_simple_bytes();
        extend_bytes(&mut id, suffix.as_slice());
        proof {
            assert(id@ =~= "rId".spec_bytes() + dec_rep(old(self).next_id as nat) + seq![117u8]
                + suffix@);
        }
        self.next_id = self.next_id + 1;
        id
    }

    /// Register a text replacement: the placeholder's bytes map to the
    /// value's bytes, overwriting any earlier binding.
    pub fn add_text_replacement(&mut self, placeholder: &str, value: &str)
        requires
            template_wf(old(self)@),
        ensures
            template_wf(final(self)@),
            final(self)@.text == insert_pair(
                old(self)@.text,
                placeholder.spec_bytes(),
                value.spec_bytes(),
            ),
            final(self)@.images == old(self)@.images,
            final(self)@.sources == old(self)@.sources,
            final(self)@.next_id == old(self)@.next_id,
    {
        let key = vstd::slice::slice_to_vec(placeholder.as_bytes());
        let val = vstd::slice::slice_to_vec(value.as_bytes());
        proof {
            lemma_insert_pair_unique(old(self)@.text, placeholder.spec_bytes(), value.spec_bytes());
        }
        upsert_bytes(&mut self.text_replacements, key, val);
    }

    /// Mark `placeholder` as an image slot that is deliberately left
    /// blank: the rewriter removes the token without inserting anything.
    pub fn add_image_absent_replacement(&mut self, placeholder: &str)
        requires
            template_wf(old(self)@),
        ensures
            template_wf(final(self)@),
            final(self)@.images == insert_pair(
                old(self)@.images,
                placeholder.spec_bytes(),
                None::<DocxImageView>,
            ),
            final(self)@.text == old(self)@.text,
            final(self)@.sources == old(self)@.sources,
            final(self)@.next_id == old(self)@.next_id,
    {
        let key = vstd::slice::slice_to_vec(placeholder.as_bytes());
        upsert_image(&mut self.image_replacements, key, None);
        proof {
            lemma_wf_insert_none(old(self)@, self@, placeholder.spec_bytes());
        }
    }

    /// Register an image replacement from already-loaded bytes, sized by
    /// decoding them under the default width cap. A source seen before is
    /// not sized again: the cached placeholder's asset is shared, under a
    /// fresh relationship identifier.
    pub fn add_image_data_replacement(
        &mut self,
        placeholder: &str,
        source: &str,
        image_data: Vec<u8>,
        image_ext: &str,
    ) -> (r: Result<(), DocxError>)
        requires
            template_wf(old(self)@),
            old(self)@.next_id < u64::MAX,
        ensures
            template_wf(final(self)@),
            final(self)@.text == old(self)@.text,
            match lookup_val(old(self)@.sources, source.spec_bytes()) {
                Some(ph0) => {
                    &&& r is Ok
                    &&& final(self)@.sources == old(self)@.sources
                    &&& match lookup_val(old(self)@.images, ph0) {
                        Some(Some(img)) => {
                            &&& copied_asset_inserted(
                                old(self)@,
                                final(self)@,
                                placeholder.spec_bytes(),
                                img,
                                img.width,
                                img.height,
                            )
                            &&& final(self)@.next_id == old(self)@.next_id + 1
                        },
                        Some(None) => {
                            &&& final(self)@.images == insert_pair(
                                old(self)@.images,
                                placeholder.spec_bytes(),
                                None::<DocxImageView>,
                            )
                            &&& final(self)@.next_id == old(self)@.next_id
                        },
                        None => true,
                    }
                },
                None => {
                    &&& (r is Ok <==> image_dims_of(image_data@) is Some)
                    &&& r is Ok ==> {
                        &&& fresh_asset_inserted(
                            old(self)@,
                            final(self)@,
                            placeholder.spec_bytes(),
                            source.spec_bytes(),
                            image_ext.spec_bytes(),
                            image_data@,
                            fitted_size_spec(
                                image_dims_of(image_data@).unwrap().0 as nat,
                                image_dims_of(image_data@).unwrap().1 as nat,
                                crate::image::DOCX_MAX_EMU as nat,
                            ),
                        )
                        &&& final(self)@.sources == insert_pair(
                            old(self)@.sources,
                            source.spec_bytes(),
                            placeholder.spec_bytes(),
                        )
                        &&& final(self)@.next_id == old(self)@.next_id + 1
                    }
                    &&& r is Err ==> final(self)@ == old(self)@ && r matches Err(
                        DocxError::ReadImageSize(_),
                    )
                },
            },
    {
        let ghost v = old(self)@;
        let src_key = vstd::slice::slice_to_vec(source.as_bytes());
        match find_key_bytes(&self.images_map, src_key.as_slice()) {
            Some(i0) => {
                proof {
                    lemma_find_key_upto(v.sources, source.spec_bytes(), v.sources.len() as int);
                    assert(v.sources[i0 as int] == (
                        self.images_map@[i0 as int].0@,
                        self.images_map@[i0 as int].1@,
                    ));
                }
                let ph0 = clone_bytes(&self.images_map[i0].1);
                match find_key_images(&self.image_replacements, ph0.as_slice()) {
                    Some(j) => {
                        proof {
                            assert(v.images[j as int].0 == self.image_replacements@[j as int].0@);
                        }
                        let has_image = self.image_replacements[j].1.is_some();
                        if has_image {
                            let (path, ext, data, wdt, hgt) = match &self.image_replacements[j].1 {
                                Some(img) => (
                                    clone_bytes(&img.image_path),
                                    clone_bytes(&img.image_ext),
                                    clone_bytes(&img.image_data),
                                    img.width,
                                    img.height,
                                ),
                                None => {
                                    // ruled out above by `has_image`
                                    proof {
                                        assert(false);
                                    }
                                    (Vec::new(), Vec::new(), Vec::new(), 0u64, 0u64)
                                },
                            };
                            let id = self.fresh_relation_id();
                            let asset = DocxImage {
                                image_path: path,
                                image_ext: ext,
                                image_data: data,
                                relation_id: id,
                                width: wdt,
                                height: hgt,
                            };
                            let ghost aview = asset@;
                            let key = vstd::slice::slice_to_vec(placeholder.as_bytes());
                            upsert_image(&mut self.image_replacements, key, Some(asset));
                            proof {
                                lemma_wf_insert_some(v, self@, placeholder.spec_bytes(), aview);
                            }
                            Ok(())
                        } else {
                            let key = vstd::slice::slice_to_vec(placeholder.as_bytes());
                            upsert_image(&mut self.image_replacements, key, None);
                            proof {
                                lemma_wf_insert_none(v, self@, placeholder.spec_bytes());
                            }
                            Ok(())
                        }
                    },
                    None => {
                        // the cache invariant points every source at a
                        // registered placeholder
                        proof {
                            assert(false);
                        }
                        Ok(())
                    },
                }
            },
            None => {
                let (wdt, hgt) = match get_image_size(&image_data) {
                    Ok(d) => d,
                    Err(e) => {
                        return Err(e);
                    },
                };
                self.register_fresh(placeholder, source, image_data, image_ext, wdt, hgt);
                Ok(())
            },
        }
    }

    /// Register an image replacement from already-loaded bytes with an
    /// explicit size in EMU; the bytes are not decoded. A source seen
    /// before shares the cached asset's bytes under the new size and a
    /// fresh relationship identifier; a source cached as absent is left
    /// as it stands.
    pub fn add_image_data_size_replacement(
        &mut self,
        placeholder: &str,
        source: &str,
        image_data: Vec<u8>,
        image_ext: &str,
        width_emu: u64,
        height_emu: u64,
    )
        requires
            template_wf(old(self)@),
            old(self)@.next_id < u64::MAX,
        ensures
            template_wf(final(self)@),
            final(self)@.text == old(self)@.text,
            match lookup_val(old(self)@.sources, source.spec_bytes()) {
                Some(ph0) => {
                    &&& final(self)@.sources == old(self)@.sources
                    &&& match lookup_val(old(self)@.images, ph0) {
                        Some(Some(img)) => {
                            &&& copied_asset_inserted(
                                old(self)@,
                                final(self)@,
                                placeholder.spec_bytes(),
                                img,
                                width_emu,
                                height_emu,
                            )
                            &&& final(self)@.next_id == old(self)@.next_id + 1
                        },
                        Some(None) => final(self)@ == old(self)@,
                        None => true,
                    }
                },
                None => {
                    &&& fresh_asset_inserted(
                        old(self)@,
                        final(self)@,
                        placeholder.spec_bytes(),
                        source.spec_bytes(),
                        image_ext.spec_bytes(),
                        image_data@,
                        (width_emu as nat, height_emu as nat),
                    )
                    &&& final(self)@.sources == insert_pair(
                        old(self)@.sources,
                        source.spec_bytes(),
                        placeholder.spec_bytes(),
                    )
                    &&& final(self)@.next_id == old(self)@.next_id + 1
                },
            },
    {
        let ghost v = old(self)@;
        let src_key = vstd::slice::slice_to_vec(source.as_bytes());
        match find_key_bytes(&self.images_map, src_key.as_slice()) {
            Some(i0) => {
                proof {
                    lemma_find_key_upto(v.sources, source.spec_bytes(), v.sources.len() as int);
                    assert(v.sources[i0 as int] == (
                        self.images_map@[i0 as int].0@,
                        self.images_map@[i0 as int].1@,
                    ));
                }
                let ph0 = clone_bytes(&self.images_map[i0].1);
                match find_key_images(&self.image_replacements, ph0.as_slice()) {
                    Some(j) => {
                        proof {
                            assert(v.images[j as int].0 == self.image_replacements@[j as int].0@);
                        }
                        let has_image = self.image_replacements[j].1.is_some();
                        if has_image {
                            let (path, ext, data) = match &self.image_replacements[j].1 {
                                Some(img) => (
                                    clone_bytes(&img.image_path),
                                    clone_bytes(&img.image_ext),
                                    clone_bytes(&img.image_data),
                                ),
                                None => {
                                    // ruled out above by `has_image`
                                    proof {
                                        assert(false);
                                    }
                                    (Vec::new(), Vec::new(), Vec::new())
                                },
                            };
                            let id = self.fresh_relation_id();
                            let asset = DocxImage {
                                image_path: path,
                                image_ext: ext,
                                image_data: data,
                                relation_id: id,
                                width: width_emu,
                                height: height_emu,
                            };
                            let ghost aview = asset@;
                            let key = vstd::slice::slice_to_vec(placeholder.as_bytes());
                            upsert_image(&mut self.image_replacements, key, Some(asset));
                            proof {
                                lemma_wf_insert_some(v, self@, placeholder.spec_bytes(), aview);
                            }
                        }
                    },
                    None => {
                        // the cache invariant points every source at a
                        // registered placeholder
                        proof {
                            assert(false);
                        }
                    },
                }
            },
            None => {
                self.register_fresh(placeholder, source, image_data, image_ext, width_emu, height_emu);
            },
        }
    }

    /// Register a never-seen source: build its asset, bind the
    /// placeholder, and record the source in the deduplication cache.
    fn register_fresh(
        &mut self,
        placeholder: &str,
        source: &str,
        image_data: Vec<u8>,
        image_ext: &str,
        width_emu: u64,
        height_emu: u64,
    )
        requires
            template_wf(old(self)@),
            old(self)@.next_id < u64::MAX,
        ensures
            template_wf(final(self)@),
            final(self)@.text == old(self)@.text,
            fresh_asset_inserted(
                old(self)@,
                final(self)@,
                placeholder.spec_bytes(),
                source.spec_bytes(),
                image_ext.spec_bytes(),
                image_data@,
                (width_emu as nat, height_emu as nat),
            ),
            final(self)@.sources == insert_pair(
                old(self)@.sources,
                source.spec_bytes(),
                placeholder.spec_bytes(),
            ),
            final(self)@.next_id == old(self)@.next_id + 1,
    {
        let ghost v = old(self)@;
        let id = self.fresh_relation_id();
        let asset = DocxImage {
            image_path: vstd::slice::slice_to_vec(source.as_bytes()),
            image_ext: vstd::slice::slice_to_vec(image_ext.as_bytes()),
            image_data,
            relation_id: id,
            width: width_emu,
            height: height_emu,
        };
        let ghost aview = asset@;
        let key = vstd::slice::slice_to_vec(placeholder.as_bytes());
        upsert_image(&mut self.image_replacements, key, Some(asset));
        let ghost w1 = self@;
        let ph_val = vstd::slice::slice_to_vec(placeholder.as_bytes());
        upsert_bytes(&mut self.images_map, src_key_vec(source), ph_val);
        proof {
            lemma_wf_insert_some(v, w1, placeholder.spec_bytes(), aview);
            lemma_insert_pair_unique(w1.sources, source.spec_bytes(), placeholder.spec_bytes());
            lemma_insert_pair_lookup(v.images, placeholder.spec_bytes(), Some(aview));
            assert(lookup_val(self@.images, placeholder.spec_bytes()) is Some);
            assert(find_key(self@.images, placeholder.spec_bytes()) is Some);
            assert forall|i: int| 0 <= i < self@.sources.len() implies find_key(
                self@.images,
                (#[trigger] self@.sources[i]).1,
            ) is Some by {
                lemma_find_key_upto(v.sources, source.spec_bytes(), v.sources.len() as int);
                if i < v.sources.len() && self@.sources[i] == v.sources[i] {
                    lemma_insert_pair_keeps_keys(
                        v.images,
                        placeholder.spec_bytes(),
                        Some(aview),
                        v.sources[i].1,
                    );
                } else {
                    assert(self@.sources[i].1 == placeholder.spec_bytes());
                }
            }
        }
    }
}

impl Default for DocxTemplate {
    /// An empty registry, as [`DocxTemplate::new`] builds it.
    fn default() -> (r: Self)
        ensures
            template_wf(r@),
            r@.text == Seq::<(Seq<u8>, Seq<u8>)>::empty(),
            r@.images == Seq::<(Seq<u8>, Option<DocxImageView>)>::empty(),
            r@.sources == Seq::<(Seq<u8>, Seq<u8>)>::empty(),
            r@.next_id == 0,
    {
        Self::new()
    }
}

impl DocxTemplate {
    /// The identifier counter has room for another registration.
    pub fn can_register_image(&self) -> (r: bool)
        ensures
            r <==> self@.next_id < u64::MAX,
    {
        self.next_id < u64::MAX
    }

    /// Was an image already registered under this source?
    pub fn image_source_cached(&self, source: &str) -> (r: bool)
        ensures
            r <==> lookup_val(self@.sources, source.spec_bytes()) is Some,
    {
        let key = vstd::slice::slice_to_vec(source.as_bytes());
        match find_key_bytes(&self.images_map, key.as_slice()) {
            Some(_) => true,
            None => false,
        }
    }
}

/// A fresh asset with the given fields and a newly generated identifier
/// was bound to `ph`.
pub open spec fn fresh_asset_inserted(
    v: TemplateView,
    w: TemplateView,
    ph: Seq<u8>,
    src: Seq<u8>,
    ext: Seq<u8>,
    data: Seq<u8>,
    size: (nat, nat),
) -> bool {
    exists|a: DocxImageView|
        {
            &&& is_gen_id(a.id, v.next_id as nat)
            &&& a.path == src
            &&& a.ext == ext
            &&& a.data == data
            &&& a.width as nat == size.0
            &&& a.height as nat == size.1
            &&& w.images == #[trigger] insert_pair(v.images, ph, Some(a))
        }
}

/// A copy of the cached asset `img`, resized and under a newly generated
/// identifier, was bound to `ph`.
pub open spec fn copied_asset_inserted(
    v: TemplateView,
    w: TemplateView,
    ph: Seq<u8>,
    img: DocxImageView,
    width: u64,
    height: u64,
) -> bool {
    exists|a: DocxImageView|
        {
            &&& is_gen_id(a.id, v.next_id as nat)
            &&& a.path == img.path
            &&& a.ext == img.ext
            &&& a.data == img.data
            &&& a.width == width
            &&& a.height == height
            &&& w.images == #[trigger] insert_pair(v.images, ph, Some(a))
        }
}

/// Copy a source string into owned bytes.
fn src_key_vec(source: &str) -> (r: Vec<u8>)
    ensures
        r@ == source.spec_bytes(),
{
    vstd::slice::slice_to_vec(source.as_bytes())
}

/// Binding a placeholder to an absent image keeps the registry well
/// formed.
proof fn lemma_wf_insert_none(v: TemplateView, w: TemplateView, ph: Seq<u8>)
    requires
        template_wf(v),
        w.text == v.text,
        w.sources == v.sources,
        w.images == insert_pair(v.images, ph, None::<DocxImageView>),
        w.next_id == v.next_id,
    ensures
        template_wf(w),
{
    lemma_insert_pair_unique(v.images, ph, None::<DocxImageView>);
    lemma_find_key_upto(v.images, ph, v.images.len() as int);
    assert forall|i: int| 0 <= i < w.sources.len() implies find_key(
        w.images,
        (#[trigger] w.sources[i]).1,
    ) is Some by {
        lemma_insert_pair_keeps_keys(v.images, ph, None::<DocxImageView>, v.sources[i].1);
    }
}

/// Binding a placeholder to an asset whose identifier was generated at
/// the current counter keeps the registry well formed.
proof fn lemma_wf_insert_some(v: TemplateView, w: TemplateView, ph: Seq<u8>, a: DocxImageView)
    requires
        template_wf(v),
        is_gen_id(a.id, v.next_id as nat),
        v.next_id < u64::MAX,
        w.text == v.text,
        w.sources == v.sources,
        w.images == insert_pair(v.images, ph, Some(a)),
        w.next_id == v.next_id + 1,
    ensures
        template_wf(w),
{
    lemma_insert_pair_unique(v.images, ph, Some(a));
    lemma_find_key_upto(v.images, ph, v.images.len() as int);
    let ghost n0 = v.next_id as nat;
    assert forall|i: int|
        0 <= i < w.images.len() implies ((#[trigger] w.images[i]).1 matches Some(b)
        ==> has_tag_below(b.id, w.next_id as nat)) by {
        match w.images[i].1 {
            Some(b) => {
                if w.images[i] == (ph, Some(a)) && b == a {
                    assert(n0 < w.next_id as nat && is_gen_id(a.id, n0));
                } else if 0 <= i < v.images.len() && w.images[i] == v.images[i] {
                    let t = choose|t: nat| t < n0 && is_gen_id(b.id, t);
                    assert(t < w.next_id as nat && is_gen_id(b.id, t));
                }
            },
            None => {},
        }
    }
    assert forall|i: int, j: int| 0 <= i < j < w.images.len() implies match (
        (#[trigger] w.images[i]).1,
        (#[trigger] w.images[j]).1,
    ) {
        (Some(b), Some(c)) => b.id != c.id,
        _ => true,
    } by {
        match (w.images[i].1, w.images[j].1) {
            (Some(b), Some(c)) => {
                let in_old_i = 0 <= i < v.images.len() && w.images[i] == v.images[i];
                let in_old_j = 0 <= j < v.images.len() && w.images[j] == v.images[j];
                if in_old_i && !in_old_j {
                    let t = choose|t: nat| t < n0 && is_gen_id(b.id, t);
                    lemma_gen_id_distinct(b.id, t, a.id, n0);
                } else if !in_old_i && in_old_j {
                    let t = choose|t: nat| t < n0 && is_gen_id(c.id, t);
                    lemma_gen_id_distinct(c.id, t, a.id, n0);
                }
            },
            _ => {},
        }
    }
    assert forall|i: int| 0 <= i < w.sources.len() implies find_key(
        w.images,
        (#[trigger] w.sources[i]).1,
    ) is Some by {
        lemma_insert_pair_keeps_keys(v.images, ph, Some(a), v.sources[i].1);
    }
}


/// The opening placeholder marker.
pub open spec fn open_marker() -> Seq<u8> {
    "{{".spec_bytes()
}

/// The closing placeholder marker.
pub open spec fn close_marker() -> Seq<u8> {
    "}}".spec_bytes()
}

/// One transition of the streaming rewriter on a text event, from the
/// current accumulation buffer: begin or continue accumulating a split
/// placeholder, substitute a completed one, or pass plain text through.
pub open spec fn rewrite_text_step(buf: Seq<u8>, t: Seq<u8>, v: TemplateView) -> (
    Seq<u8>,
    Seq<XmlEventView>,
) {
    if contains_seq(t, open_marker()) {
        if contains_seq(t, close_marker()) {
            let t2 = substitute_spec(t, v.text);
            if lookup_val(v.images, t2) is Some {
                (buf + t2, Seq::<XmlEventView>::empty())
            } else {
                (buf, seq![XmlEventView::Text(t2)])
            }
        } else {
            (buf + t, Seq::<XmlEventView>::empty())
        }
    } else if buf.len() == 0 {
        (buf, seq![XmlEventView::Text(t)])
    } else {
        let nb = buf + t;
        if contains_seq(nb, open_marker()) && contains_seq(nb, close_marker()) {
            let b2 = substitute_spec(nb, v.text);
            if lookup_val(v.images, b2) is Some {
                (b2, Seq::<XmlEventView>::empty())
            } else {
                (Seq::<u8>::empty(), seq![XmlEventView::Text(b2)])
            }
        } else {
            (nb, Seq::<XmlEventView>::empty())
        }
    }
}

/// One transition of the streaming rewriter on an end tag: at a paragraph
/// boundary a buffered image placeholder becomes a drawing fragment (or
/// nothing, where the asset is absent), and the buffer is cleared.
pub open spec fn rewrite_end_step(buf: Seq<u8>, name: Seq<u8>, v: TemplateView) -> (
    Seq<u8>,
    Seq<XmlEventView>,
) {
    if buf.len() == 0 {
        (buf, seq![XmlEventView::End(name)])
    } else if contains_seq(buf, open_marker()) && contains_seq(buf, close_marker()) {
        if name == "w:p".spec_bytes() {
            match lookup_val(v.images, buf) {
                Some(Some(img)) => (
                    Seq::<u8>::empty(),
                    drawing_events_spec(img.id, img.width, img.height).push(
                        XmlEventView::End(name),
                    ),
                ),
                _ => (Seq::<u8>::empty(), seq![XmlEventView::End(name)]),
            }
        } else {
            (buf, seq![XmlEventView::End(name)])
        }
    } else {
        (buf, Seq::<XmlEventView>::empty())
    }
}

/// One transition of the streaming rewriter: structural events are
/// suppressed while a placeholder is being accumulated, pass-through
/// events always flow, text and end tags follow their own rules.
pub open spec fn rewrite_step(buf: Seq<u8>, ev: XmlEventView, v: TemplateView) -> (
    Seq<u8>,
    Seq<XmlEventView>,
) {
    match ev {
        XmlEventView::Start(_, _) => if buf.len() == 0 {
            (buf, seq![ev])
        } else {
            (buf, Seq::<XmlEventView>::empty())
        },
        XmlEventView::Empty(_, _) => if buf.len() == 0 {
            (buf, seq![ev])
        } else {
            (buf, Seq::<XmlEventView>::empty())
        },
        XmlEventView::Other(_) => (buf, seq![ev]),
        XmlEventView::Text(t) => rewrite_text_step(buf, t, v),
        XmlEventView::End(name) => rewrite_end_step(buf, name, v),
    }
}

/// The rewriter folded over an event sequence: the final buffer and the
/// emitted output events. A buffer still pending at the end is dropped.
pub open spec fn rewrite_run(evs: Seq<XmlEventView>, v: TemplateView) -> (Seq<u8>, Seq<XmlEventView>)
    decreases evs.len(),
{
    if evs.len() == 0 {
        (Seq::<u8>::empty(), Seq::<XmlEventView>::empty())
    } else {
        let prev = rewrite_run(evs.drop_last(), v);
        let st = rewrite_step(prev.0, evs.last(), v);
        (st.0, prev.1 + st.1)
    }
}

/// The events the rewriter emits for an input event sequence.
pub open spec fn rewrite_spec(evs: Seq<XmlEventView>, v: TemplateView) -> Seq<XmlEventView> {
    rewrite_run(evs, v).1
}

/// What rewriting a body part's bytes yields: `None` where the XML is
/// malformed, otherwise the serialized rewritten event stream.
pub open spec fn rewritten_doc_spec(data: Seq<u8>, v: TemplateView) -> Option<Seq<u8>> {
    match xml_events_of(data) {
        Some(evs) => Some(xml_concat(rewrite_spec(evs, v))),
        None => None,
    }
}

impl DocxTemplate {
    /// Apply every registered text replacement to one buffer, scanning
    /// left to right and taking the longest matching placeholder.
    pub fn process_text(&self, text: &[u8]) -> (r: Vec<u8>)
        ensures
            r@ == substitute_spec(text@, self@.text),
    {
        substitute(text, &self.text_replacements)
    }

    /// Rewrite a body event stream: resolve text placeholders, replace
    /// image placeholders by drawing fragments at their paragraph's end,
    /// and pass everything else through.
    #[verifier::rlimit(80)]
    pub fn rewrite_document_events(&self, events: &Vec<XmlEvent>) -> (out: Vec<XmlEvent>)
        requires
            template_wf(self@),
            forall|i: int| 0 <= i < events@.len() ==> ev_wf(#[trigger] events@[i]@),
        ensures
            event_views(out@) == rewrite_spec(event_views(events@), self@),
            forall|i: int| 0 <= i < out@.len() ==> ev_wf(#[trigger] out@[i]@),
    {
        let ghost v = self@;
        let ghost evs = event_views(events@);
        let n: usize = events.len();
        let mut out: Vec<XmlEvent> = Vec::new();
        let mut buf: Vec<u8> = Vec::new();
        let mut i: usize = 0;
        while i < n
            invariant
                v == self@,
                template_wf(v),
                evs == event_views(events@),
                n == events@.len(),
                0 <= i <= n,
                forall|k: int| 0 <= k < n ==> ev_wf(#[trigger] events@[k]@),
                buf@ == rewrite_run(evs.take(i as int), v).0,
                event_views(out@) == rewrite_run(evs.take(i as int), v).1,
                forall|k: int| 0 <= k < out@.len() ==> ev_wf(#[trigger] out@[k]@),
            decreases n - i,
        {
            proof {
                assert(evs.take(i + 1).drop_last() =~= evs.take(i as int));
                assert(evs.take(i + 1).last() == events@[i as int]@);
            }
            let ghost pre_buf = buf@;
            let ghost pre_out = event_views(out@);
            let ghost stp = rewrite_step(pre_buf, evs[i as int], v);
            match &events[i] {
                XmlEvent::Start(_, _) => {
                    if buf.len() == 0 {
                        out.push(clone_event(&events[i]));
                    }
                },
                XmlEvent::Empty(_, _) => {
                    if buf.len() == 0 {
                        out.push(clone_event(&events[i]));
                    }
                },
                XmlEvent::Other(_) => {
                    out.push(clone_event(&events[i]));
                },
                XmlEvent::Text(t) => {
                    let has_open = contains_pat(t.as_slice(), "{{".as_bytes());
                    let has_close = contains_pat(t.as_slice(), "}}".as_bytes());
                    if has_open {
                        if has_close {
                            let t2 = substitute(t.as_slice(), &self.text_replacements);
                            match find_key_images(&self.image_replacements, t2.as_slice()) {
                                Some(_) => {
                                    extend_bytes(&mut buf, t2.as_slice());
                                },
                                None => {
                                    out.push(XmlEvent::Text(t2));
                                },
                            }
                        } else {
                            extend_bytes(&mut buf, t.as_slice());
                        }
                    } else if buf.len() == 0 {
                        out.push(clone_event(&events[i]));
                    } else {
                        extend_bytes(&mut buf, t.as_slice());
                        let has_open2 = contains_pat(buf.as_slice(), "{{".as_bytes());
                        let has_close2 = contains_pat(buf.as_slice(), "}}".as_bytes());
                        if has_open2 && has_close2 {
                            let b2 = substitute(buf.as_slice(), &self.text_replacements);
                            match find_key_images(&self.image_replacements, b2.as_slice()) {
                                Some(_) => {
                                    buf = b2;
                                },
                                None => {
                                    out.push(XmlEvent::Text(b2));
                                    buf = Vec::new();
                                },
                            }
                        }
                    }
                },
                XmlEvent::End(name) => {
                    if buf.len() == 0 {
                        out.push(clone_event(&events[i]));
                    } else {
                        let has_open = contains_pat(buf.as_slice(), "{{".as_bytes());
                        let has_close = contains_pat(buf.as_slice(), "}}".as_bytes());
                        if has_open && has_close {
                            if bytes_eq(name.as_slice(), "w:p".as_bytes()) {
                                match find_key_images(&self.image_replacements, buf.as_slice()) {
                                    Some(j) => {
                                        let has_image = self.image_replacements[j].1.is_some();
                                        if has_image {
                                            match &self.image_replacements[j].1 {
                                                Some(img) => {
                                                    proof {
                                                        lemma_drawing_events_wf(
                                                            img@.id,
                                                            img.width,
                                                            img.height,
                                                        );
                                                    }
                                                    let mut dr = create_drawing_element(
                                                        img.relation_id.as_slice(),
                                                        img.width,
                                                        img.height,
                                                    );
                                                    proof {
                                                        lemma_event_views_add(out@, dr@);
                                                    }
                                                    out.append(&mut dr);
                                                },
                                                None => {},
                                            }
                                        }
                                        buf = Vec::new();
                                    },
                                    None => {
                                        buf = Vec::new();
                                    },
                                }
                                out.push(clone_event(&events[i]));
                            } else {
                                out.push(clone_event(&events[i]));
                            }
                        }
                    }
                },
            }
            proof {
                assert(buf@ == stp.0);
                assert(event_views(out@) =~= pre_out + stp.1);
            }
            i = i + 1;
        }
        proof {
            assert(evs.take(n as int) =~= evs);
        }
        out
    }

    /// Rewrite the raw bytes of the body document part. Succeeds exactly
    /// where the part parses as XML; the result is the serialized
    /// rewritten event stream.
    pub fn process_document_xml(&self, contents: &Vec<u8>) -> (r: Result<Vec<u8>, DocxError>)
        requires
            template_wf(self@),
        ensures
            r is Ok <==> xml_events_of(contents@) is Some,
            r matches Ok(out) ==> Some(out@) == rewritten_doc_spec(contents@, self@),
            r is Err ==> r matches Err(DocxError::Xml(_)),
    {
        let events = match parse_xml_events(contents) {
            Ok(e) => e,
            Err(e) => {
                return Err(e);
            },
        };
        let rewritten = self.rewrite_document_events(&events);
        Ok(serialize_xml_events(&rewritten))
    }
}


/// An empty element named `Relationship`.
pub open spec fn is_relationship_empty(e: XmlEventView) -> bool {
    match e {
        XmlEventView::Empty(raw, nl) => raw.take(nl as int) == "Relationship".spec_bytes(),
        _ => false,
    }
}

/// The fixed XML declaration written at the head of the rewritten
/// relationship manifest.
pub open spec fn rels_decl_event() -> XmlEventView {
    XmlEventView::Other(
        "<?xml version=\"1.0\" encoding=\"UTF-8\" standalone=\"yes\"?>".spec_bytes(),
    )
}

/// The root element of the relationship manifest.
pub open spec fn rels_root_event() -> XmlEventView {
    crate::drawing::start_view(
        "Relationships",
        " xmlns=\"http://schemas.openxmlformats.org/package/2006/relationships\"",
    )
}

/// The raw content of an appended image relationship: its identifier,
/// the fixed image relationship type, and a target under the media
/// directory keyed by identifier and extension.
pub open spec fn rel_entry_raw(id: Seq<u8>, ext: Seq<u8>) -> Seq<u8> {
    "Relationship".spec_bytes() + " Id=\"".spec_bytes() + id
        + "\" Type=\"http://schemas.openxmlformats.org/officeDocument/2006/relationships/image\" Target=\"media/image_".spec_bytes()
        + id + ".".spec_bytes() + ext + "\"".spec_bytes()
}

/// The appended relationship element for one resolved asset.
pub open spec fn rel_entry_event(img: DocxImageView) -> XmlEventView {
    XmlEventView::Empty(rel_entry_raw(img.id, img.ext), "Relationship".spec_bytes().len())
}

/// One appended relationship element per resolved image asset, in
/// registration order.
pub open spec fn new_rel_events(images: Seq<(Seq<u8>, Option<DocxImageView>)>) -> Seq<XmlEventView>
    decreases images.len(),
{
    if images.len() == 0 {
        Seq::<XmlEventView>::empty()
    } else {
        let rest = new_rel_events(images.drop_last());
        match images.last().1 {
            Some(img) => rest.push(rel_entry_event(img)),
            None => rest,
        }
    }
}

/// The original `Relationship` elements of the part, in order.
pub open spec fn kept_rel_events(evs: Seq<XmlEventView>) -> Seq<XmlEventView>
    decreases evs.len(),
{
    if evs.len() == 0 {
        Seq::<XmlEventView>::empty()
    } else {
        let rest = kept_rel_events(evs.drop_last());
        if is_relationship_empty(evs.last()) {
            rest.push(evs.last())
        } else {
            rest
        }
    }
}

/// The rewritten relationship manifest, as events: the fixed declaration
/// and root, every original `Relationship` element in order, then one new
/// relationship per resolved image asset.
pub open spec fn rels_events_spec(evs: Seq<XmlEventView>, v: TemplateView) -> Seq<XmlEventView> {
    seq![rels_decl_event(), rels_root_event()] + kept_rel_events(evs) + new_rel_events(v.images)
        + seq![crate::drawing::end_view("Relationships")]
}

/// What rewriting the relationship part's bytes yields: `None` where the
/// XML is malformed, otherwise the serialized manifest.
pub open spec fn rewritten_rels_spec(data: Seq<u8>, v: TemplateView) -> Option<Seq<u8>> {
    match xml_events_of(data) {
        Some(evs) => Some(xml_concat(rels_events_spec(evs, v))),
        None => None,
    }
}

impl DocxTemplate {
    /// Regenerate the relationship manifest: keep every original
    /// `Relationship` element, discard everything else of the part, and
    /// append one image relationship per resolved asset, targeting the
    /// media entry the assembler writes. Succeeds exactly where the part
    /// parses as XML.
    #[verifier::rlimit(40)]
    pub fn process_rels_xml(&self, xml_data: &Vec<u8>) -> (r: Result<Vec<u8>, DocxError>)
        ensures
            r is Ok <==> xml_events_of(xml_data@) is Some,
            r matches Ok(out) ==> Some(out@) == rewritten_rels_spec(xml_data@, self@),
            r is Err ==> r matches Err(DocxError::Xml(_)),
    {
        let ghost v = self@;
        let events = match parse_xml_events(xml_data) {
            Ok(e) => e,
            Err(e) => {
                return Err(e);
            },
        };
        let ghost evs = event_views(events@);
        let mut out: Vec<XmlEvent> = Vec::new();
        out.push(
            XmlEvent::Other(
                vstd::slice::slice_to_vec(
                    "<?xml version=\"1.0\" encoding=\"UTF-8\" standalone=\"yes\"?>".as_bytes(),
                ),
            ),
        );
        out.push(
            crate::drawing::start_ev(
                "Relationships",
                " xmlns=\"http://schemas.openxmlformats.org/package/2006/relationships\"",
            ),
        );
        proof {
            assert(event_views(out@) =~= seq![rels_decl_event(), rels_root_event()]);
        }
        let n: usize = events.len();
        let mut i: usize = 0;
        while i < n
            invariant
                evs == event_views(events@),
                n == events@.len(),
                0 <= i <= n,
                forall|k: int| 0 <= k < n ==> ev_wf(#[trigger] events@[k]@),
                event_views(out@) == seq![rels_decl_event(), rels_root_event()]
                    + kept_rel_events(evs.take(i as int)),
                forall|k: int| 0 <= k < out@.len() ==> ev_wf(#[trigger] out@[k]@),
            decreases n - i,
        {
            proof {
                assert(evs.take(i + 1).drop_last() =~= evs.take(i as int));
                assert(evs.take(i + 1).last() == events@[i as int]@);
            }
            let keep = match &events[i] {
                XmlEvent::Empty(raw, nl) => {
                    let name = vstd::slice::slice_subrange(raw.as_slice(), 0, *nl);
                    bytes_eq(name, "Relationship".as_bytes())
                },
                _ => false,
            };
            proof {
                match events@[i as int]@ {
                    XmlEventView::Empty(raw, nl) => {
                        assert(raw.subrange(0, nl as int) =~= raw.take(nl as int));
                    },
                    _ => {},
                }
            }
            if keep {
                let ghost pre_out = event_views(out@);
                proof {
                    assert(is_relationship_empty(events@[i as int]@));
                    assert(kept_rel_events(evs.take(i + 1)) == kept_rel_events(
                        evs.take(i as int),
                    ).push(events@[i as int]@));
                }
                out.push(clone_event(&events[i]));
                proof {
                    assert(event_views(out@) =~= pre_out.push(events@[i as int]@));
                    assert(pre_out.push(events@[i as int]@) =~= seq![
                        rels_decl_event(),
                        rels_root_event(),
                    ] + kept_rel_events(evs.take(i + 1)));
                }
            } else {
                proof {
                    assert(event_views(out@) =~= seq![rels_decl_event(), rels_root_event()]
                        + kept_rel_events(evs.take(i + 1)));
                }
            }
            i = i + 1;
        }
        proof {
            assert(evs.take(n as int) =~= evs);
        }
        let ghost base = event_views(out@);
        let m: usize = self.image_replacements.len();
        let mut j: usize = 0;
        while j < m
            invariant
                v == self@,
                m == self.image_replacements@.len(),
                0 <= j <= m,
                v.images == image_pairs_view(self.image_replacements@),
                event_views(out@) == base + new_rel_events(v.images.take(j as int)),
                forall|k: int| 0 <= k < out@.len() ==> ev_wf(#[trigger] out@[k]@),
            decreases m - j,
        {
            proof {
                assert(v.images.take(j + 1).drop_last() =~= v.images.take(j as int));
                assert(v.images.take(j + 1).last() == v.images[j as int]);
                assert(v.images[j as int].1 == match self.image_replacements@[j as int].1 {
                    Some(img) => Some(img@),
                    None => None::<DocxImageView>,
                });
            }
            match &self.image_replacements[j].1 {
                Some(img) => {
                    let mut raw: Vec<u8> = Vec::new();
                    extend_bytes(&mut raw, "Relationship".as_bytes());
                    let nl: usize = raw.len();
                    extend_bytes(&mut raw, " Id=\"".as_bytes());
                    extend_bytes(&mut raw, img.relation_id.as_slice());
                    extend_bytes(
                        &mut raw,
                        "\" Type=\"http://schemas.openxmlformats.org/officeDocument/2006/relationships/image\" Target=\"media/image_".as_bytes(),
                    );
                    extend_bytes(&mut raw, img.relation_id.as_slice());
                    extend_bytes(&mut raw, ".".as_bytes());
                    extend_bytes(&mut raw, img.image_ext.as_slice());
                    extend_bytes(&mut raw, "\"".as_bytes());
                    proof {
                        assert(raw@ =~= rel_entry_raw(img@.id, img@.ext));
                    }
                    proof {
                        assert(raw@ == rel_entry_raw(img@.id, img@.ext));
                        assert(nl as nat == "Relationship".spec_bytes().len());
                        assert(new_rel_events(v.images.take(j + 1)) == new_rel_events(
                            v.images.take(j as int),
                        ).push(rel_entry_event(img@)));
                    }
                    let ghost pre_out = event_views(out@);
                    out.push(XmlEvent::Empty(raw, nl));
                    proof {
                        assert(event_views(out@) =~= pre_out.push(rel_entry_event(img@)));
                        assert(pre_out.push(rel_entry_event(img@)) =~= base + new_rel_events(
                            v.images.take(j + 1),
                        ));
                    }
                },
                None => {
                    proof {
                        assert(event_views(out@) =~= base + new_rel_events(v.images.take(j + 1)));
                    }
                },
            }
            j = j + 1;
        }
        proof {
            assert(v.images.take(m as int) =~= v.images);
        }
        out.push(crate::drawing::end_ev("Relationships"));
        proof {
            assert(event_views(out@) =~= rels_events_spec(evs, v));
        }
        Ok(serialize_xml_events(&out))
    }
}


/// The body document part's entry name.
pub open spec fn doc_part_name() -> Seq<u8> {
    "word/document.xml".spec_bytes()
}

/// The relationship manifest part's entry name.
pub open spec fn rels_part_name() -> Seq<u8> {
    "word/_rels/document.xml.rels".spec_bytes()
}

/// The media entry name for one resolved asset.
pub open spec fn media_entry_name(id: Seq<u8>, ext: Seq<u8>) -> Seq<u8> {
    "word/media/image_".spec_bytes() + id + ".".spec_bytes() + ext
}

/// The two rewritten parts of the template parse as XML.
pub open spec fn entries_parse_ok(es: Seq<ZipEntryView>, v: TemplateView) -> bool {
    forall|i: int|
        0 <= i < es.len() ==> {
            &&& ((#[trigger] es[i]).name == doc_part_name() ==> xml_events_of(es[i].data) is Some)
            &&& (es[i].name == rels_part_name() ==> xml_events_of(es[i].data) is Some)
        }
}

/// One template entry after assembly: the two target parts are rewritten,
/// every other entry keeps its bytes; the compression method is kept and
/// a missing Unix mode becomes the default.
pub open spec fn assemble_entry(e: ZipEntryView, v: TemplateView) -> ZipEntryView {
    let data = if e.name == doc_part_name() {
        rewritten_doc_spec(e.data, v).unwrap()
    } else if e.name == rels_part_name() {
        rewritten_rels_spec(e.data, v).unwrap()
    } else {
        e.data
    };
    let mode = match e.mode {
        Some(m) => Some(m),
        None => Some(0o644u32),
    };
    ZipEntryView { name: e.name, data, method: e.method, mode }
}

/// The appended media entries: one per resolved image asset, in
/// registration order, holding the asset's bytes.
pub open spec fn media_entries(images: Seq<(Seq<u8>, Option<DocxImageView>)>) -> Seq<ZipEntryView>
    decreases images.len(),
{
    if images.len() == 0 {
        Seq::<ZipEntryView>::empty()
    } else {
        let rest = media_entries(images.drop_last());
        match images.last().1 {
            Some(img) => rest.push(
                ZipEntryView {
                    name: media_entry_name(img.id, img.ext),
                    data: img.data,
                    method: None,
                    mode: None,
                },
            ),
            None => rest,
        }
    }
}

/// The full output entry list of the assembler.
pub open spec fn assembled_entries(es: Seq<ZipEntryView>, v: TemplateView) -> Seq<ZipEntryView> {
    es.map_values(|e: ZipEntryView| assemble_entry(e, v)) + media_entries(v.images)
}

/// The entries read back from a written archive match the intended ones
/// in name, bytes, and (where one was given) compression method.
pub open spec fn entries_correspond(res: Seq<ZipEntryView>, want: Seq<ZipEntryView>) -> bool {
    &&& res.len() == want.len()
    &&& forall|i: int|
        0 <= i < res.len() ==> (#[trigger] res[i]).name == want[i].name && res[i].data
            == want[i].data && (want[i].method is Some ==> res[i].method == want[i].method)
}

impl DocxTemplate {
    /// Assemble the output package's entry list from the template's:
    /// route the body part and the relationship manifest through their
    /// rewriters, copy every other entry through with its method and
    /// mode, and append one media entry per resolved image asset.
    /// Fails exactly where a rewritten part does not parse as XML.
    #[verifier::rlimit(40)]
    pub fn assemble_entries(&self, entries: Vec<ZipEntry>) -> (r: Result<Vec<ZipEntry>, DocxError>)
        requires
            template_wf(self@),
        ensures
            r is Ok <==> entries_parse_ok(crate::zip_store::entry_views(entries@), self@),
            r matches Ok(out) ==> crate::zip_store::entry_views(out@) == assembled_entries(
                crate::zip_store::entry_views(entries@),
                self@,
            ),
            r is Err ==> r matches Err(DocxError::Xml(_)),
    {
        let ghost v = self@;
        let ghost es = crate::zip_store::entry_views(entries@);
        let ghost f = |e: ZipEntryView| assemble_entry(e, v);
        let mut rest = entries;
        let mut out: Vec<ZipEntry> = Vec::new();
        let ghost mut k: int = 0;
        proof {
            assert(es.skip(0) =~= es);
            assert(crate::zip_store::entry_views(out@) =~= es.take(0).map_values(f));
        }
        while rest.len() > 0
            invariant
                v == self@,
                template_wf(v),
                es == crate::zip_store::entry_views(entries@),
                0 <= k <= es.len(),
                crate::zip_store::entry_views(rest@) == es.skip(k),
                crate::zip_store::entry_views(out@) == es.take(k).map_values(f),
                f == (|e: ZipEntryView| assemble_entry(e, v)),
                forall|i: int|
                    0 <= i < k ==> {
                        &&& ((#[trigger] es[i]).name == doc_part_name() ==> xml_events_of(
                            es[i].data,
                        ) is Some)
                        &&& (es[i].name == rels_part_name() ==> xml_events_of(es[i].data) is Some)
                    },
            decreases rest@.len(),
        {
            proof {
                assert(crate::zip_store::entry_views(rest@).len() == rest@.len());
                assert(k < es.len());
            }
            let e = rest.remove(0);
            proof {
                assert(e@ == es.skip(k)[0]);
                assert(es.skip(k)[0] == es[k]);
                assert(es.skip(k).remove(0) =~= es.skip(k + 1));
            }
            let is_doc = bytes_eq(e.name.as_slice(), "word/document.xml".as_bytes());
            let is_rels = bytes_eq(e.name.as_slice(), "word/_rels/document.xml.rels".as_bytes());
            let data = if is_doc {
                match self.process_document_xml(&e.data) {
                    Ok(d) => d,
                    Err(err) => {
                        proof {
                            assert(es[k].name == doc_part_name());
                            assert(xml_events_of(es[k].data) is None);
                            assert(!entries_parse_ok(es, v));
                        }
                        return Err(err);
                    },
                }
            } else if is_rels {
                match self.process_rels_xml(&e.data) {
                    Ok(d) => d,
                    Err(err) => {
                        proof {
                            assert(es[k].name == rels_part_name());
                            assert(xml_events_of(es[k].data) is None);
                            assert(!entries_parse_ok(es, v));
                        }
                        return Err(err);
                    },
                }
            } else {
                e.data
            };
            let mode: Option<u32> = match e.mode {
                Some(m) => Some(m),
                None => Some(0o644),
            };
            let ghost pre_out = crate::zip_store::entry_views(out@);
            out.push(ZipEntry { name: e.name, data, method: e.method, mode });
            proof {
                assert(crate::zip_store::entry_views(out@) =~= pre_out.push(assemble_entry(
                    es[k],
                    v,
                )));
                assert(pre_out.push(assemble_entry(es[k], v)) =~= es.take(k + 1).map_values(f));
                k = k + 1;
            }
        }
        proof {
            assert(es.take(k) =~= es);
            assert(es.skip(k).len() == 0);
        }
        let ghost base = crate::zip_store::entry_views(out@);
        let m: usize = self.image_replacements.len();
        let mut j: usize = 0;
        while j < m
            invariant
                v == self@,
                m == self.image_replacements@.len(),
                0 <= j <= m,
                v.images == image_pairs_view(self.image_replacements@),
                crate::zip_store::entry_views(out@) == base + media_entries(v.images.take(j as int)),
            decreases m - j,
        {
            proof {
                assert(v.images.take(j + 1).drop_last() =~= v.images.take(j as int));
                assert(v.images.take(j + 1).last() == v.images[j as int]);
                assert(v.images[j as int].1 == match self.image_replacements@[j as int].1 {
                    Some(img) => Some(img@),
                    None => None::<DocxImageView>,
                });
            }
            match &self.image_replacements[j].1 {
                Some(img) => {
                    let mut name: Vec<u8> = Vec::new();
                    extend_bytes(&mut name, "word/media/image_".as_bytes());
                    extend_bytes(&mut name, img.relation_id.as_slice());
                    extend_bytes(&mut name, ".".as_bytes());
                    extend_bytes(&mut name, img.image_ext.as_slice());
                    let data = clone_bytes(&img.image_data);
                    let ghost pre_out = crate::zip_store::entry_views(out@);
                    proof {
                        assert(name@ =~= media_entry_name(img@.id, img@.ext));
                    }
                    out.push(ZipEntry { name, data, method: None, mode: None });
                    proof {
                        assert(crate::zip_store::entry_views(out@) =~= pre_out.push(
                            ZipEntryView {
                                name: media_entry_name(img@.id, img@.ext),
                                data: img@.data,
                                method: None,
                                mode: None,
                            },
                        ));
                        assert(pre_out.push(
                            ZipEntryView {
                                name: media_entry_name(img@.id, img@.ext),
                                data: img@.data,
                                method: None,
                                mode: None,
                            },
                        ) =~= base + media_entries(v.images.take(j + 1)));
                    }
                },
                None => {
                    proof {
                        assert(crate::zip_store::entry_views(out@) =~= base + media_entries(
                            v.images.take(j + 1),
                        ));
                    }
                },
            }
            j = j + 1;
        }
        proof {
            assert(v.images.take(m as int) =~= v.images);
        }
        Ok(out)
    }

    /// Process a template package: every entry of the template archive is
    /// copied into the output, with the body document and the
    /// relationship manifest rewritten and one media entry appended per
    /// resolved image asset. No partial output: any failure aborts the
    /// whole operation.
    pub fn process_template(&self, template: &Vec<u8>) -> (r: Result<Vec<u8>, DocxError>)
        requires
            template_wf(self@),
        ensures
            r is Ok <==> (zip_entries_of(template@) matches Some(es) && entries_parse_ok(
                es,
                self@,
            ) && crate::zip_store::zip_write_of(assembled_entries(es, self@)) is Some),
            r matches Ok(out) ==> out@ == crate::zip_store::zip_write_of(
                assembled_entries(zip_entries_of(template@).unwrap(), self@),
            ).unwrap(),
            r matches Ok(out) ==> {
                &&& zip_entries_of(out@) matches Some(res)
                &&& entries_correspond(
                    res,
                    assembled_entries(zip_entries_of(template@).unwrap(), self@),
                )
            },
            r is Err ==> r matches Err(DocxError::Zip(_)) || r matches Err(DocxError::Xml(_)) || r
                matches Err(DocxError::Utf8),
    {
        let entries = match crate::zip_store::read_zip_entries(template) {
            Ok(e) => e,
            Err(e) => {
                return Err(e);
            },
        };
        let assembled = match self.assemble_entries(entries) {
            Ok(a) => a,
            Err(e) => {
                return Err(e);
            },
        };
        match crate::zip_store::write_zip_entries(&assembled) {
            Ok(bytes) => Ok(bytes),
            Err(e) => Err(e),
        }
    }
}


/// Law: a body text node that is exactly a registered text placeholder is
/// replaced by that placeholder's value — the rewriter emits the value
/// and, where the value does not itself contain the placeholder, no
/// occurrence of the placeholder remains in the emitted text.
pub proof fn lemma_registered_placeholder_replaced(v: TemplateView, p: Seq<u8>, value: Seq<u8>)
    requires
        template_wf(v),
        lookup_val(v.text, p) == Some(value),
        p.len() > 0,
        contains_seq(p, open_marker()),
        contains_seq(p, close_marker()),
        lookup_val(v.images, value) is None,
    ensures
        rewrite_step(Seq::<u8>::empty(), XmlEventView::Text(p), v) == (
            Seq::<u8>::empty(),
            seq![XmlEventView::Text(value)],
        ),
        !contains_seq(value, p) ==> !contains_seq(
            rewrite_step(Seq::<u8>::empty(), XmlEventView::Text(p), v).1[0]->Text_0,
            p,
        ),
{
    lemma_find_key_upto(v.text, p, v.text.len() as int);
    let k = find_key(v.text, p).unwrap();
    crate::substitute::lemma_substitute_exact(p, v.text, k);
}

/// Law: a body text node in which a registered placeholder is the first
/// position where any key matches (and, there, the best match) emits, in
/// place, one text event whose content contains the placeholder's value;
/// everything before the occurrence is kept verbatim.
pub proof fn lemma_placeholder_in_text_replaced(v: TemplateView, t: Seq<u8>, k: int, pos: int)
    requires
        0 <= k < v.text.len(),
        0 <= pos <= t.len(),
        best_key_at(t, v.text, pos) == Some(k),
        forall|j: int| 0 <= j < pos ==> #[trigger] best_key_at(t, v.text, j) is None,
        contains_seq(t, open_marker()),
        contains_seq(t, close_marker()),
        lookup_val(v.images, substitute_spec(t, v.text)) is None,
    ensures
        rewrite_step(Seq::<u8>::empty(), XmlEventView::Text(t), v) == (
            Seq::<u8>::empty(),
            seq![XmlEventView::Text(substitute_spec(t, v.text))],
        ),
        substitute_spec(t, v.text) == t.subrange(0, pos) + v.text[k].1 + crate::substitute::subst_from(
            t,
            v.text,
            pos + v.text[k].0.len(),
        ),
        contains_seq(substitute_spec(t, v.text), v.text[k].1),
{
    lemma_substitute_occurrence(t, v.text, k, pos);
}

/// Law: a placeholder whose tokens are split across adjacent text runs
/// resolves exactly as the same placeholder in a single run — the
/// rewriter's accumulation makes the two event sequences equivalent,
/// whatever the registry holds.
pub proof fn lemma_split_run_equivalent(v: TemplateView, a: Seq<u8>, b: Seq<u8>)
    requires
        contains_seq(a, open_marker()),
        !contains_seq(a, close_marker()),
        !contains_seq(b, open_marker()),
    ensures
        rewrite_run(seq![XmlEventView::Text(a), XmlEventView::Text(b)], v) == rewrite_run(
            seq![XmlEventView::Text(a + b)],
            v,
        ),
{
    let both = seq![XmlEventView::Text(a), XmlEventView::Text(b)];
    let one = seq![XmlEventView::Text(a + b)];
    assert(both.drop_last() =~= seq![XmlEventView::Text(a)]);
    assert(seq![XmlEventView::Text(a)].drop_last() =~= Seq::<XmlEventView>::empty());
    assert(one.drop_last() =~= Seq::<XmlEventView>::empty());
    crate::bytes_util::lemma_contains_prefix(a, b, open_marker());
    let split = rewrite_run(both, v);
    let single = rewrite_run(one, v);
    assert(rewrite_run(Seq::<XmlEventView>::empty(), v) == (
        Seq::<u8>::empty(),
        Seq::<XmlEventView>::empty(),
    ));
    assert(rewrite_run(seq![XmlEventView::Text(a)], v).0 =~= a);
    assert(rewrite_run(both.drop_last(), v).0 =~= a);
    assert(Seq::<u8>::empty() + a =~= a);
    assert(split.0 == single.0 && split.1 =~= single.1);
}

/// Law: at a paragraph end, a buffered image placeholder resolved to an
/// asset emits the drawing fragment whose extent element carries exactly
/// the asset's stored width and height, in decimal EMU.
pub proof fn lemma_paragraph_drawing_extents(v: TemplateView, buf: Seq<u8>, img: DocxImageView)
    requires
        buf.len() > 0,
        contains_seq(buf, open_marker()),
        contains_seq(buf, close_marker()),
        lookup_val(v.images, buf) == Some(Some(img)),
    ensures
        rewrite_end_step(buf, "w:p".spec_bytes(), v).1 == drawing_events_spec(
            img.id,
            img.width,
            img.height,
        ).push(XmlEventView::End("w:p".spec_bytes())),
        drawing_events_spec(img.id, img.width, img.height)[2] == crate::drawing::extent_view(
            "wp:extent",
            img.width,
            img.height,
        ),
{
    lemma_drawing_extent_index(img.id, img.width, img.height);
}

/// The third event of the drawing fragment is its extent element.
#[verifier::rlimit(100)]
#[verifier::spinoff_prover]
proof fn lemma_drawing_extent_index(rid: Seq<u8>, w: u64, h: u64)
    ensures
        drawing_events_spec(rid, w, h)[2] == crate::drawing::extent_view("wp:extent", w, h),
{
}

/// Law: a length registered as hundredths of a centimeter converts to
/// EMU exactly — one hundred times the stored EMU value equals the
/// centimeter numerator times 360000.
pub proof fn lemma_cm_to_emu_exact(hundredths: nat)
    by (nonlinear_arith)
    ensures
        crate::image::cm_hundredths_to_emu_spec(hundredths) * 100 == hundredths * 360000,
{
}

/// Law: any two resolved image placeholders in a well-formed registry
/// carry distinct relationship identifiers; registering the same source
/// under two placeholders therefore yields two relationship entries with
/// distinct identifiers (their byte-identical content is stated by the
/// registration contracts themselves).
pub proof fn lemma_assets_have_distinct_ids(v: TemplateView, i: int, j: int)
    requires
        template_wf(v),
        0 <= i < j < v.images.len(),
        v.images[i].1 is Some,
        v.images[j].1 is Some,
    ensures
        v.images[i].1.unwrap().id != v.images[j].1.unwrap().id,
{
}

/// Law: the rewritten manifest appends exactly one relationship per
/// resolved image asset, and the assembler exactly one media entry per
/// resolved image asset, so relationship and media entry always agree.
pub proof fn lemma_rels_media_agree(images: Seq<(Seq<u8>, Option<DocxImageView>)>)
    ensures
        new_rel_events(images).len() == media_entries(images).len(),
    decreases images.len(),
{
    if images.len() > 0 {
        lemma_rels_media_agree(images.drop_last());
    }
}

/// Law: every template entry other than the body document and the
/// relationship manifest is byte-identical between the template and the
/// assembled output, under its original name.
pub proof fn lemma_untouched_entries_identical(es: Seq<ZipEntryView>, v: TemplateView, i: int)
    requires
        0 <= i < es.len(),
        es[i].name != doc_part_name(),
        es[i].name != rels_part_name(),
    ensures
        assembled_entries(es, v)[i].name == es[i].name,
        assembled_entries(es, v)[i].data == es[i].data,
        assembled_entries(es, v)[i].method == es[i].method,
{
}

/// Law: a text node holding a token with no matching text or image entry
/// is left in the output exactly as written.
pub proof fn lemma_unknown_token_untouched(v: TemplateView, t: Seq<u8>)
    requires
        contains_seq(t, open_marker()),
        contains_seq(t, close_marker()),
        forall|k: int, i: int|
            0 <= k < v.text.len() ==> !(#[trigger] crate::bytes_util::is_match_at(
                t,
                v.text[k].0,
                i,
            )) || v.text[k].0.len() == 0,
        lookup_val(v.images, t) is None,
    ensures
        rewrite_step(Seq::<u8>::empty(), XmlEventView::Text(t), v) == (
            Seq::<u8>::empty(),
            seq![XmlEventView::Text(t)],
        ),
{
    crate::substitute::lemma_substitute_untouched(t, v.text);
}

} // verus!
