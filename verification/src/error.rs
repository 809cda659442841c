//! The library's failure type, and declarations of the outside error types
//! that some of its variants carry.

use vstd::prelude::*;

verus! {

/// Declares `std::io::Error` so that it can stand in a field.
#[verifier::external_type_specification]
#[verifier::external_body]
pub struct ExIoError(std::io::Error);

/// Declares `zip::result::ZipError` so that it can stand in a field.
#[verifier::external_type_specification]
#[verifier::external_body]
pub struct ExZipError(zip::result::ZipError);

/// Declares `quick_xml::Error` so that it can stand in a field.
#[verifier::external_type_specification]
#[verifier::external_body]
pub struct ExXmlError(quick_xml::Error);

/// Declares `image::ImageError` so that it can stand in a field.
#[verifier::external_type_specification]
#[verifier::external_body]
pub struct ExImageError(image::ImageError);

/// A failure of template processing or document merging.
#[derive(Debug)]
pub enum DocxError {
    /// File input or output failed (raised by callers that do the I/O).
    Io(std::io::Error),
    /// The package archive is malformed or could not be written.
    Zip(zip::result::ZipError),
    /// A document part holds malformed XML.
    Xml(quick_xml::Error),
    /// An entry name or text run is not valid UTF-8.
    Utf8,
    /// No extension could be determined for an image source.
    ImageNotFound(String),
    /// A remote image source failed to respond usefully.
    InvalidImageUrl(String),
    /// The image bytes could not be decoded as a supported raster format.
    ReadImageSize(image::ImageError),
    /// A remote resource failed the content-type and extension checks.
    NotImage(String),
    /// The first source package of a merge holds no body document part.
    MissingDocumentPart,
}

} // verus!
