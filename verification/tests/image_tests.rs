use std::io::Cursor;

use docx_template::error::DocxError;
use docx_template::image::{
    DOCX_MAX_EMU, DocxImage, EMU_PER_PX, cm_hundredths_to_emu, get_extension, get_image_size,
    get_image_size_capped, remote_image_ext,
};

fn png_bytes(w: u32, h: u32) -> Vec<u8> {
    let img = image::RgbImage::new(w, h);
    let mut buf = Cursor::new(Vec::new());
    img.write_to(&mut buf, image::ImageFormat::Png).unwrap();
    buf.into_inner()
}

#[test]
fn oversized_width_scaled_to_cap() {
    // 500 px * 9525 EMU/px = 4762500 EMU, over the 3780000 cap
    let data = png_bytes(500, 300);
    let (w, h) = get_image_size(&data).unwrap();
    assert_eq!(w, DOCX_MAX_EMU);
    assert_eq!(h, 3780000u64 * (300 * 9525) / (500 * 9525));
    assert_eq!(h, 2268000);
    // aspect ratio kept exactly in this case
    assert_eq!(h as u128 * (500 * 9525), (300 * 9525) as u128 * w as u128);
}

#[test]
fn small_image_keeps_native_size() {
    let data = png_bytes(96, 48);
    let (w, h) = get_image_size(&data).unwrap();
    assert_eq!(w, 96 * EMU_PER_PX);
    assert_eq!(h, 48 * EMU_PER_PX);
}

#[test]
fn configurable_width_cap() {
    let data = png_bytes(100, 100);
    let (w, h) = get_image_size_capped(&data, 9525).unwrap();
    assert_eq!(w, 9525);
    assert_eq!(h, 9525u64 * (100 * 9525) / (100 * 9525));
}

#[test]
fn decode_error_variant() {
    let r = get_image_size(&b"certainly not a raster image".to_vec());
    assert!(matches!(r, Err(DocxError::ReadImageSize(_))));
}

#[test]
fn extension_of_simple_path() {
    assert_eq!(get_extension(b"photo.png").unwrap(), b"png".to_vec());
    assert_eq!(get_extension(b"dir/archive.tar.gz").unwrap(), b"gz".to_vec());
    assert_eq!(get_extension(b"a/b/c.jpeg").unwrap(), b"jpeg".to_vec());
}

#[test]
fn extension_missing_is_an_error() {
    assert!(matches!(get_extension(b"noext"), Err(DocxError::ImageNotFound(_))));
    assert!(matches!(get_extension(b"dir.v2/noext"), Err(DocxError::ImageNotFound(_))));
    assert!(matches!(get_extension(b".hidden"), Err(DocxError::ImageNotFound(_))));
}

#[test]
fn remote_extension_prefers_content_type() {
    let r = remote_image_ext(true, b"image/jpeg", b"http://host/pic.png").unwrap();
    assert_eq!(r, b"jpeg".to_vec());
}

#[test]
fn remote_extension_falls_back_to_url() {
    let r = remote_image_ext(true, b"text/html", b"http://host/pic.png").unwrap();
    assert_eq!(r, b"png".to_vec());
    let r2 = remote_image_ext(true, b"", b"http://host/files/photo.gif").unwrap();
    assert_eq!(r2, b"gif".to_vec());
}

#[test]
fn remote_not_image_error() {
    let r = remote_image_ext(false, b"image/png", b"http://host/pic.png");
    assert!(matches!(r, Err(DocxError::NotImage(_))));
    let r2 = remote_image_ext(true, b"text/html", b"http://host/api?q=1");
    assert!(matches!(r2, Err(DocxError::ImageNotFound(_))));
}

#[test]
fn image_asset_fields() {
    let data = png_bytes(10, 20);
    let img = DocxImage::new_image_data("http://host/p.png", data.clone(), "png").unwrap();
    assert_eq!(img.image_path, b"http://host/p.png".to_vec());
    assert_eq!(img.image_ext, b"png".to_vec());
    assert_eq!(img.image_data, data);
    assert_eq!(img.width, 10 * EMU_PER_PX);
    assert_eq!(img.height, 20 * EMU_PER_PX);
    assert!(img.relation_id.starts_with(b"rId"));
    assert_eq!(img.relation_id.len(), 3 + 32);
}

#[test]
fn explicit_size_asset() {
    let img = DocxImage::new_image_data_size("p.png", b"bytes".to_vec(), "png", 111, 222);
    assert_eq!(img.width, 111);
    assert_eq!(img.height, 222);
    assert!(img.relation_id.starts_with(b"rId"));
    assert_eq!(img.relation_id.len(), 3 + 32);
}

#[test]
fn centimeter_conversion_exact() {
    assert_eq!(cm_hundredths_to_emu(100), 360000);
    assert_eq!(cm_hundredths_to_emu(609), 2192400);
    assert_eq!(cm_hundredths_to_emu(590), 2124000);
    assert_eq!(cm_hundredths_to_emu(0), 0);
}
