//! Archive extraction and repackaging over in-memory bytes.  The zip format
//! itself is handled by an outside crate behind two trusted wrappers; their
//! shared name `zip_contents` ties unpacking and packing together, which is
//! what makes the round trip provable.

use vstd::prelude::*;

use crate::fileset::views_of;
use crate::fileset::FileEntry;
use crate::kinds::ComicError;

verus! {

/// The entry list (decoded names and decompressed bytes, in archive order)
/// that a zip-compatible byte string holds, or `None` when the bytes cannot
/// be read as such an archive.  Both are functions of the bytes alone.
pub uninterp spec fn zip_contents(b: Seq<u8>) -> Option<Seq<(Seq<u8>, Seq<u8>)>>;

/// Whether an entry list can be written as a zip archive.  Writing goes to
/// memory, so failure is decided by the entries alone: a name that is not
/// valid UTF-8, a repeated name, or an entry beyond the format's plain
/// limits is refused, and nothing else is.
pub uninterp spec fn zip_packable(es: Seq<(Seq<u8>, Seq<u8>)>) -> bool;

#[verifier::external_type_specification]
#[verifier::external_body]
pub struct ExZipError(zip::result::ZipError);

/// Relies on `zip::ZipArchive` (`new`, `by_index`, `name` and
/// `Read::read_to_end`): reading a zip archive from bytes succeeds exactly
/// when the bytes parse as one, and yields each entry's decoded name and
/// decompressed bytes, in archive order.
#[verifier::external_body]
fn zip_unpack(bytes: &Vec<u8>) -> (r: Result<Vec<FileEntry>, zip::result::ZipError>)
    ensures
        r matches Ok(es) ==> zip_contents(bytes@) == Some(views_of(es@)),
        r is Err <==> zip_contents(bytes@) is None,
{
    let mut archive = zip::ZipArchive::new(std::io::Cursor::new(bytes.as_slice()))?;
    let mut out: Vec<FileEntry> = Vec::new();
    for i in 0..archive.len() {
        let mut f = archive.by_index(i)?;
        let name = f.name().as_bytes().to_vec();
        let mut data: Vec<u8> = Vec::new();
        std::io::Read::read_to_end(&mut f, &mut data).map_err(zip::result::ZipError::Io)?;
        out.push(FileEntry { name, data });
    }
    Ok(out)
}

/// Relies on `zip::ZipWriter` (`start_file` with deflate options, `write_all`
/// and `finish`): on success the produced bytes form a zip archive holding
/// exactly the given entries, names and bytes alike, in the given order.
/// Writing goes to an in-memory buffer, so success is decided by the
/// entries alone.
#[verifier::external_body]
fn zip_pack(entries: &Vec<FileEntry>) -> (r: Result<Vec<u8>, zip::result::ZipError>)
    ensures
        r is Ok <==> zip_packable(views_of(entries@)),
        r matches Ok(b) ==> zip_contents(b@) == Some(views_of(entries@)),
{
    let mut w = zip::ZipWriter::new(std::io::Cursor::new(Vec::new()));
    let options = zip::write::SimpleFileOptions::default().compression_method(
        zip::CompressionMethod::Deflated,
    );
    for e in entries.iter() {
        let name = String::from_utf8(e.name.clone()).map_err(|err| {
            zip::result::ZipError::Io(std::io::Error::new(std::io::ErrorKind::InvalidData, err))
        })?;
        w.start_file(name, options)?;
        std::io::Write::write_all(&mut w, &e.data).map_err(zip::result::ZipError::Io)?;
    }
    Ok(w.finish()?.into_inner())
}

/// Unpacks a zip-compatible container into the file set it holds; fails with
/// `ExtractionError` exactly when the bytes are no such archive.
pub fn extract_zip(bytes: &Vec<u8>) -> (r: Result<Vec<FileEntry>, ComicError>)
    ensures
        r matches Ok(es) ==> zip_contents(bytes@) == Some(views_of(es@)),
        r is Err <==> zip_contents(bytes@) is None,
        r matches Err(e) ==> e == ComicError::ExtractionError,
{
    match zip_unpack(bytes) {
        Ok(es) => Ok(es),
        Err(_) => Err(ComicError::ExtractionError),
    }
}

/// Extraction for the fallback container kind.  A rar-compatible attempt is
/// outside work (its library reads from paths, not bytes), so its outcome
/// comes in as an argument: `Some` entries when it succeeded, `None` when it
/// failed.  On `None` the same bytes are retried as a zip-compatible archive
/// — mislabeled containers are common — and only when that also fails is
/// `ExtractionError` raised.  A mislabeled container that is in truth
/// zip-compatible thus yields exactly the file set direct zip extraction
/// yields.
pub fn extract_archive_b(bytes: &Vec<u8>, rar_entries: Option<Vec<FileEntry>>) -> (r: Result<
    Vec<FileEntry>,
    ComicError,
>)
    ensures
        rar_entries matches Some(es) ==> r == Ok::<Vec<FileEntry>, ComicError>(es),
        rar_entries is None ==> (r matches Ok(es) ==> zip_contents(bytes@) == Some(views_of(es@))),
        rar_entries is None ==> ((r is Err) <==> zip_contents(bytes@) is None),
        r matches Err(e) ==> e == ComicError::ExtractionError,
{
    match rar_entries {
        Some(es) => Ok(es),
        None => extract_zip(bytes),
    }
}

/// Writes every file of the set into a fresh deflate-compressed archive,
/// entry names and bytes preserved, in list order.  Fails, with
/// `RepackageError`, exactly when the entries cannot be written as a zip
/// archive.
pub fn repackage(files: &Vec<FileEntry>) -> (r: Result<Vec<u8>, ComicError>)
    ensures
        r is Ok <==> zip_packable(views_of(files@)),
        r matches Ok(b) ==> zip_contents(b@) == Some(views_of(files@)),
        r matches Err(e) ==> e == ComicError::RepackageError,
{
    match zip_pack(files) {
        Ok(b) => Ok(b),
        Err(_) => Err(ComicError::RepackageError),
    }
}

/// Round trip: unpacking a zip-compatible container and repackaging the
/// untouched file set — no transcoding in between — yields an archive whose
/// entry set and bytes equal the original's.  It succeeds exactly when the
/// container is readable and its entries can be written back.
pub fn rewrap_archive(bytes: &Vec<u8>) -> (r: Result<Vec<u8>, ComicError>)
    ensures
        r is Ok <==> (zip_contents(bytes@) matches Some(es) && zip_packable(es)),
        r matches Ok(out) ==> {
            &&& zip_contents(out@) == zip_contents(bytes@)
            &&& zip_contents(bytes@) is Some
        },
{
    let files = match extract_zip(bytes) {
        Ok(es) => es,
        Err(e) => {
            return Err(e);
        },
    };
    match repackage(&files) {
        Ok(out) => Ok(out),
        Err(e) => Err(e),
    }
}

} // verus!
