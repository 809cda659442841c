//! Generation of Word-compatible documents from a template: placeholder
//! substitution inside the package's body XML, relationship-manifest upkeep,
//! image embedding, archive assembly, and document merging.

pub mod assoc;
pub mod bytes_util;
pub mod docx;
pub mod drawing;
pub mod error;
pub mod image;
pub mod merge;
pub mod substitute;
pub mod xml;
pub mod zip_store;
