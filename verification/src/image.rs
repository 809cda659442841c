//! Image assets: loading-independent sizing arithmetic, extension
//! inference, and construction of the asset record that the rewriters embed.

use vstd::prelude::*;
use vstd::string::StringSliceAdditionalSpecFns;

use crate::bytes_util::{is_match_at, match_at};
use crate::error::DocxError;

verus! {

/// English Metric Units per centimeter.
pub const EMU_PER_CM: u64 = 360000;

/// English Metric Units per pixel at the 96-DPI assumption
/// (914400 EMU per inch / 96 pixels per inch).
pub const EMU_PER_PX: u64 = 9525;

/// The default cap on a picture's on-page width: half of a 21 cm page.
pub const DOCX_MAX_EMU: u64 = 21 * 360000 / 2;

/// Centimeters, given in hundredths, converted to EMU.
pub open spec fn cm_hundredths_to_emu_spec(hundredths: nat) -> nat {
    hundredths * 3600
}

/// Convert a length in hundredths of a centimeter to EMU
/// (1 cm is 360000 EMU, so one hundredth is 3600 EMU).
pub fn cm_hundredths_to_emu(hundredths: u64) -> (r: u64)
    requires
        hundredths * 3600 <= u64::MAX,
    ensures
        r == cm_hundredths_to_emu_spec(hundredths as nat),
{
    hundredths * 3600
}

/// What decoding an image yields: `None` where the bytes are not a
/// supported raster format, otherwise the pixel width and height.
/// Named here; the image crate computes it.
pub uninterp spec fn image_dims_of(data: Seq<u8>) -> Option<(u32, u32)>;

/// Relies on `image::load_from_memory` and `GenericImageView::dimensions`:
/// the pixel size is a function of the bytes alone, and decoding fails
/// exactly where the bytes are not a supported raster format.
#[verifier::external_body]
fn decode_image_dims(data: &Vec<u8>) -> (r: Result<(u32, u32), DocxError>)
    ensures
        r is Ok <==> image_dims_of(data@) is Some,
        r matches Ok(d) ==> image_dims_of(data@) == Some(d),
        r is Err ==> r matches Err(DocxError::ReadImageSize(_)),
{
    match image::load_from_memory(data) {
        Ok(img) => Ok(image::GenericImageView::dimensions(&img)),
        Err(e) => Err(DocxError::ReadImageSize(e)),
    }
}

/// Pixel dimensions converted to EMU at 96 DPI, the width then capped at
/// `max_w` with the height reduced by the same ratio.
pub open spec fn fitted_size_spec(wpx: nat, hpx: nat, max_w: nat) -> (nat, nat) {
    let w = wpx * 9525;
    let h = hpx * 9525;
    if w > max_w {
        (max_w, max_w * h / w)
    } else {
        (w, h)
    }
}

/// The width cap preserves the aspect ratio within integer rounding:
/// the scaled height is the exact rational `max_w * h / w` rounded down.
pub proof fn lemma_fitted_ratio(wpx: nat, hpx: nat, max_w: nat)
    requires
        wpx * 9525 > max_w,
    ensures
        fitted_size_spec(wpx, hpx, max_w).0 == max_w,
        fitted_size_spec(wpx, hpx, max_w).1 * (wpx * 9525) <= max_w * (hpx * 9525),
        max_w * (hpx * 9525) < (fitted_size_spec(wpx, hpx, max_w).1 + 1) * (wpx * 9525),
{
    let w = wpx * 9525;
    let h = hpx * 9525;
    let q = max_w * h / w;
    assert(q * w <= max_w * h < (q + 1) * w) by (nonlinear_arith)
        requires
            w > 0,
            q == max_w * h / w;
}

proof fn lemma_u64_mul_fits_u128(a: u64, b: u64) by (nonlinear_arith)
    ensures
        (a as nat) * (b as nat) < (u128::MAX as nat),
{
}

proof fn lemma_capped_height_fits(max_w: u64, h: u64, w: u64) by (nonlinear_arith)
    requires
        w > max_w,
    ensures
        max_w as nat * h as nat / w as nat <= h as nat,
{
}

/// Compute the document size of an image in EMU with a caller-chosen
/// width cap: pixels are converted at 96 DPI, and a width over the cap is
/// scaled down to it proportionally. Fails exactly where the bytes cannot
/// be decoded.
pub fn get_image_size_capped(image_data: &Vec<u8>, max_width_emu: u64) -> (r: Result<
    (u64, u64),
    DocxError,
>)
    ensures
        r is Ok <==> image_dims_of(image_data@) is Some,
        r matches Ok(d) ==> {
            let dims = image_dims_of(image_data@).unwrap();
            (d.0 as nat, d.1 as nat) == fitted_size_spec(
                dims.0 as nat,
                dims.1 as nat,
                max_width_emu as nat,
            )
        },
        r is Err ==> r matches Err(DocxError::ReadImageSize(_)),
{
    let (wpx, hpx) = match decode_image_dims(image_data) {
        Ok(d) => d,
        Err(e) => {
            return Err(e);
        },
    };
    let w: u64 = wpx as u64 * 9525;
    let h: u64 = hpx as u64 * 9525;
    if w > max_width_emu {
        proof {
            lemma_u64_mul_fits_u128(max_width_emu, h);
        }
        let num: u128 = max_width_emu as u128 * h as u128;
        let q: u128 = num / w as u128;
        proof {
            lemma_capped_height_fits(max_width_emu, h, w);
        }
        Ok((max_width_emu, q as u64))
    } else {
        Ok((w, h))
    }
}

/// Compute the document size of an image in EMU with the default width
/// cap of half a page.
pub fn get_image_size(image_data: &Vec<u8>) -> (r: Result<(u64, u64), DocxError>)
    ensures
        r is Ok <==> image_dims_of(image_data@) is Some,
        r matches Ok(d) ==> {
            let dims = image_dims_of(image_data@).unwrap();
            (d.0 as nat, d.1 as nat) == fitted_size_spec(
                dims.0 as nat,
                dims.1 as nat,
                DOCX_MAX_EMU as nat,
            )
        },
        r is Err ==> r matches Err(DocxError::ReadImageSize(_)),
{
    get_image_size_capped(image_data, DOCX_MAX_EMU)
}

/// The last position of byte `b` in `s`, if any.
pub open spec fn last_pos(s: Seq<u8>, b: u8) -> Option<int>
    decreases s.len(),
{
    if s.len() == 0 {
        None
    } else if s.last() == b {
        Some(s.len() - 1)
    } else {
        last_pos(s.drop_last(), b)
    }
}

proof fn lemma_last_pos(s: Seq<u8>, b: u8)
    ensures
        last_pos(s, b) matches Some(i) ==> 0 <= i < s.len() && s[i] == b,
        last_pos(s, b) is None ==> forall|j: int| 0 <= j < s.len() ==> s[j] != b,
    decreases s.len(),
{
    if s.len() > 0 && s.last() != b {
        lemma_last_pos(s.drop_last(), b);
        if last_pos(s, b) is None {
            assert forall|j: int| 0 <= j < s.len() implies s[j] != b by {
                if j < s.len() - 1 {
                    assert(s.drop_last()[j] == s[j]);
                }
            }
        }
    }
}

/// Find the last position of `b` in `s`.
fn find_last_byte(s: &[u8], b: u8) -> (r: Option<usize>)
    ensures
        match r {
            Some(i) => Some(i as int) == last_pos(s@, b),
            None => last_pos(s@, b) is None,
        },
{
    let mut i: usize = s.len();
    proof {
        assert(s@.take(s@.len() as int) =~= s@);
    }
    while i > 0
        invariant
            0 <= i <= s@.len(),
            last_pos(s@, b) == last_pos(s@.take(i as int), b),
        decreases i,
    {
        proof {
            assert(s@.take(i as int).drop_last() =~= s@.take(i - 1));
            assert(s@.take(i as int).last() == s@[i - 1]);
        }
        if s[i - 1] == b {
            return Some(i - 1);
        }
        i = i - 1;
    }
    proof {
        assert(s@.take(0) =~= Seq::<u8>::empty());
    }
    None
}

/// The extension of a path: the part of the file name (after the last
/// slash) that follows its last dot, unless the file name starts with
/// that dot. `None` where the file name holds no such dot.
pub open spec fn ext_of(path: Seq<u8>) -> Option<Seq<u8>> {
    let fname = match last_pos(path, 47) {
        Some(i) => path.skip(i + 1),
        None => path,
    };
    match last_pos(fname, 46) {
        Some(j) => if j > 0 {
            Some(fname.skip(j + 1))
        } else {
            None
        },
        None => None,
    }
}

/// Determine the extension of a local image path or URL path, as
/// [`ext_of`] states. Fails where none can be found.
pub fn get_extension(image_path: &[u8]) -> (r: Result<Vec<u8>, DocxError>)
    ensures
        r is Ok <==> ext_of(image_path@) is Some,
        r matches Ok(v) ==> Some(v@) == ext_of(image_path@),
        r is Err ==> r matches Err(DocxError::ImageNotFound(_)),
{
    proof {
        lemma_last_pos(image_path@, 47);
    }
    let plen: usize = image_path.len();
    let fname: &[u8] = match find_last_byte(image_path, 47) {
        Some(i) => {
            let f = vstd::slice::slice_subrange(image_path, i + 1, plen);
            proof {
                assert(image_path@.subrange(i + 1, image_path@.len() as int) =~= image_path@.skip(
                    i + 1,
                ));
            }
            f
        },
        None => image_path,
    };
    proof {
        lemma_last_pos(fname@, 46);
    }
    match find_last_byte(fname, 46) {
        Some(j) => {
            if j > 0 {
                let flen: usize = fname.len();
                let ext = vstd::slice::slice_subrange(fname, j + 1, flen);
                proof {
                    assert(fname@.subrange(j + 1, fname@.len() as int) =~= fname@.skip(j + 1));
                }
                Ok(vstd::slice::slice_to_vec(ext))
            } else {
                Err(DocxError::ImageNotFound("could not determine the image extension".to_owned()))
            }
        },
        None => Err(
            DocxError::ImageNotFound("could not determine the image extension".to_owned()),
        ),
    }
}

/// The extension chosen for a fetched remote image: the subtype of an
/// `image/*` content type, otherwise the URL path's extension.
pub open spec fn remote_ext_of(content_type: Seq<u8>, url: Seq<u8>) -> Option<Seq<u8>> {
    if is_match_at(content_type, "image/".spec_bytes(), 0) {
        Some(content_type.skip("image/".spec_bytes().len() as int))
    } else {
        ext_of(url)
    }
}

/// Decide the extension of a remote image from the response's status and
/// content type, falling back to the URL's path extension where the
/// content type is missing or not an image subtype.
pub fn remote_image_ext(status_ok: bool, content_type: &[u8], url: &[u8]) -> (r: Result<
    Vec<u8>,
    DocxError,
>)
    ensures
        !status_ok ==> r matches Err(DocxError::NotImage(_)),
        status_ok ==> (r is Ok <==> remote_ext_of(content_type@, url@) is Some),
        status_ok ==> (r matches Ok(v) ==> Some(v@) == remote_ext_of(content_type@, url@)),
{
    if !status_ok {
        return Err(DocxError::NotImage("the image request was not answered".to_owned()));
    }
    let marker: &[u8] = "image/".as_bytes();
    let is_image = if marker.len() <= content_type.len() {
        match_at(content_type, marker, 0)
    } else {
        false
    };
    proof {
        if "image/".spec_bytes().len() > content_type@.len() {
            assert(!is_match_at(content_type@, "image/".spec_bytes(), 0));
        }
    }
    if is_image {
        let sub = vstd::slice::slice_subrange(content_type, marker.len(), content_type.len());
        proof {
            assert(content_type@.subrange(
                "image/".spec_bytes().len() as int,
                content_type@.len() as int,
            ) =~= content_type@.skip("image/".spec_bytes().len() as int));
        }
        Ok(vstd::slice::slice_to_vec(sub))
    } else {
        get_extension(url)
    }
}

/// Relies on `uuid::Uuid::new_v4` and its simple formatter: 32
/// hexadecimal digits. The value is random, so nothing more is stated.
#[verifier::external_body]
pub fn uuid_simple_bytes() -> (r: Vec<u8>)
    ensures
        r@.len() == 32,
{
    uuid::Uuid::new_v4().simple().to_string().into_bytes()
}

/// One resolved image asset: source identifier, inferred extension, raw
/// bytes, relationship identifier, and size in EMU.
pub struct DocxImage {
    pub image_path: Vec<u8>,
    pub image_ext: Vec<u8>,
    pub image_data: Vec<u8>,
    pub relation_id: Vec<u8>,
    pub width: u64,
    pub height: u64,
}

/// The mathematical shape of a [`DocxImage`].
pub struct DocxImageView {
    pub path: Seq<u8>,
    pub ext: Seq<u8>,
    pub data: Seq<u8>,
    pub id: Seq<u8>,
    pub width: u64,
    pub height: u64,
}

impl View for DocxImage {
    type V = DocxImageView;

    open spec fn view(&self) -> DocxImageView {
        DocxImageView {
            path: self.image_path@,
            ext: self.image_ext@,
            data: self.image_data@,
            id: self.relation_id@,
            width: self.width,
            height: self.height,
        }
    }
}

impl DocxImage {
    /// Build an asset from already-fetched bytes, sizing it by decoding
    /// the image and applying the default width cap. The relationship
    /// identifier is a fresh `rId`-prefixed random identifier, not
    /// otherwise constrained.
    pub fn new_image_data(image_url: &str, image_data: Vec<u8>, image_ext: &str) -> (r: Result<
        Self,
        DocxError,
    >)
        ensures
            r is Ok <==> image_dims_of(image_data@) is Some,
            r matches Ok(img) ==> {
                let dims = image_dims_of(image_data@).unwrap();
                img@.path == image_url.spec_bytes() && img@.ext == image_ext.spec_bytes()
                    && img@.data == image_data@ && (img@.width as nat, img@.height as nat)
                    == fitted_size_spec(dims.0 as nat, dims.1 as nat, DOCX_MAX_EMU as nat)
            },
            r matches Ok(img) ==> exists|s: Seq<u8>|
                s.len() == 32 && img@.id == #[trigger] ("rId".spec_bytes() + s),
            r is Err ==> r matches Err(DocxError::ReadImageSize(_)),
    {
        let (width, height) = get_image_size(&image_data)?;
        Ok(Self::new_image_data_size(image_url, image_data, image_ext, width, height))
    }

    /// Build an asset from already-fetched bytes with an explicit size in
    /// EMU. The relationship identifier is a fresh `rId`-prefixed random
    /// identifier, not otherwise constrained.
    pub fn new_image_data_size(
        image_url: &str,
        image_data: Vec<u8>,
        image_ext: &str,
        width: u64,
        height: u64,
    ) -> (r: Self)
        ensures
            r@.path == image_url.spec_bytes(),
            r@.ext == image_ext.spec_bytes(),
            r@.data == image_data@,
            r@.width == width,
            r@.height == height,
            exists|s: Seq<u8>| s.len() == 32 && r@.id == #[trigger] ("rId".spec_bytes() + s),
    {
        let mut relation_id: Vec<u8> = vstd::slice::slice_to_vec("rId".as_bytes());
        let suffix = uuid_simple_bytes();
        crate::bytes_util::extend_bytes(&mut relation_id, suffix.as_slice());
        proof {
            assert(relation_id@ == "rId".spec_bytes() + suffix@);
        }
        DocxImage {
            image_path: vstd::slice::slice_to_vec(image_url.as_bytes()),
            image_ext: vstd::slice::slice_to_vec(image_ext.as_bytes()),
            image_data,
            relation_id,
            width,
            height,
        }
    }
}

} // verus!
