//! The package archive as a sequence of entries: reading a ZIP into plain
//! entry records and writing such records back (both trusted, through the
//! zip crate). Everything between — which entries are rewritten, copied or
//! appended — is verified logic over these records.

use vstd::prelude::*;

use crate::error::DocxError;

verus! {

/// Declares `zip::CompressionMethod` so that an entry can carry its
/// original compression method through, opaquely.
#[verifier::external_type_specification]
#[verifier::external_body]
pub struct ExCompressionMethod(zip::CompressionMethod);

/// One archive entry: its name, its decompressed bytes, the compression
/// method to store it with (`None` for the writer's default), and the Unix
/// permission bits to store (`None` for the writer's default).
pub struct ZipEntry {
    pub name: Vec<u8>,
    pub data: Vec<u8>,
    pub method: Option<zip::CompressionMethod>,
    pub mode: Option<u32>,
}

/// The mathematical shape of a [`ZipEntry`].
pub struct ZipEntryView {
    pub name: Seq<u8>,
    pub data: Seq<u8>,
    pub method: Option<zip::CompressionMethod>,
    pub mode: Option<u32>,
}

impl View for ZipEntry {
    type V = ZipEntryView;

    open spec fn view(&self) -> ZipEntryView {
        ZipEntryView { name: self.name@, data: self.data@, method: self.method, mode: self.mode }
    }
}

/// The views of a sequence of entries.
pub open spec fn entry_views(s: Seq<ZipEntry>) -> Seq<ZipEntryView> {
    s.map_values(|e: ZipEntry| e@)
}

/// What reading an archive yields: `None` where the bytes are not a
/// readable ZIP, otherwise its entries in order, each with its name,
/// decompressed bytes, stored compression method and Unix mode. Named
/// here; the zip crate computes it.
pub uninterp spec fn zip_entries_of(bytes: Seq<u8>) -> Option<Seq<ZipEntryView>>;

/// Relies on `zip::ZipArchive::new`, `by_index` and `Read::read_to_end`:
/// the entry list is a function of the archive bytes alone, reading fails
/// exactly on a malformed archive, and every read entry reports a stored
/// compression method.
#[verifier::external_body]
pub fn read_zip_entries(data: &Vec<u8>) -> (r: Result<Vec<ZipEntry>, DocxError>)
    ensures
        r is Ok <==> zip_entries_of(data@) is Some,
        r matches Ok(v) ==> entry_views(v@) == zip_entries_of(data@).unwrap(),
        r matches Ok(v) ==> forall|i: int| 0 <= i < v@.len() ==> (#[trigger] v@[i]@).method is Some,
        r is Err ==> r matches Err(DocxError::Zip(_)),
{
    let mut archive = zip::ZipArchive::new(std::io::Cursor::new(data.clone())).map_err(DocxError::Zip)?;
    let mut out: Vec<ZipEntry> = Vec::new();
    for i in 0..archive.len() {
        let mut file = archive.by_index(i).map_err(DocxError::Zip)?;
        let mut contents: Vec<u8> = Vec::new();
        std::io::Read::read_to_end(&mut file, &mut contents).map_err(|e| DocxError::Zip(e.into()))?;
        let name = file.name().as_bytes().to_vec();
        out.push(ZipEntry { name, data: contents, method: Some(file.compression()), mode: file.unix_mode() });
    }
    Ok(out)
}

/// What writing an entry list yields: `None` where an entry name is not
/// valid UTF-8 or the writer refuses an entry (a duplicate name), else the
/// archive bytes. A function of the entries alone: with the crate's
/// default features off there is no clock, every entry is stamped with the
/// writer's fixed default timestamp. Named here; the zip crate computes it.
pub uninterp spec fn zip_write_of(es: Seq<ZipEntryView>) -> Option<Seq<u8>>;

/// Relies on `zip::ZipWriter::start_file`, `Write::write_all` and
/// `finish`: the produced archive is a function of the entries alone
/// (named `zip_write_of`); each entry is stored under its name with its
/// bytes and, where given, its method and mode, so reading the written
/// archive back yields entries with the same names, bytes and (where
/// given) methods. Fails exactly where an entry name is not valid UTF-8
/// or the writer refuses an entry, and then with `Utf8` or `Zip`.
#[verifier::external_body]
pub fn write_zip_entries(entries: &Vec<ZipEntry>) -> (r: Result<Vec<u8>, DocxError>)
    ensures
        r is Ok <==> zip_write_of(entry_views(entries@)) is Some,
        r matches Ok(out) ==> out@ == zip_write_of(entry_views(entries@)).unwrap(),
        r matches Ok(out) ==> {
            &&& zip_entries_of(out@) matches Some(es)
            &&& es.len() == entries@.len()
            &&& forall|i: int|
                0 <= i < es.len() ==> (#[trigger] es[i]).name == entries@[i]@.name && es[i].data
                    == entries@[i]@.data && (entries@[i]@.method is Some ==> es[i].method
                    == entries@[i]@.method)
        },
        r is Err ==> r matches Err(DocxError::Zip(_)) || r matches Err(DocxError::Utf8),
{
    let mut w = zip::ZipWriter::new(std::io::Cursor::new(Vec::new()));
    for e in entries.iter() {
        let mut opts = zip::write::SimpleFileOptions::default();
        if let Some(m) = e.method { opts = opts.compression_method(m); }
        if let Some(p) = e.mode { opts = opts.unix_permissions(p); }
        let name = String::from_utf8(e.name.clone()).map_err(|_| DocxError::Utf8)?;
        w.start_file(name, opts).map_err(DocxError::Zip)?;
        std::io::Write::write_all(&mut w, &e.data).map_err(|e| DocxError::Zip(e.into()))?;
    }
    Ok(w.finish().map_err(DocxError::Zip)?.into_inner())
}

} // verus!
