//! Trusted interface to the `zip` crate.
//!
//! The server packs resource files into one zip archive that is streamed to
//! clients in parts, and wraps chunk frames the same way before they go on
//! the wire. The writer is driven entry by entry from verified code; what
//! the crate accumulates is named by [`zip_entries`] and the bytes it
//! produces by [`zip_archive_of`], so callers can state their results
//! exactly without restating the zip format.

use std::io::Cursor;
use std::io::Write;
use vstd::prelude::*;

verus! {

/// The zip crate's archive writer over an in-memory buffer. Verus cannot
/// take the writer's `Write + Seek` bound, so the writer is held opaque in
/// a field; everything known of it goes through [`zip_entries`].
#[verifier::external_body]
pub struct ArchiveWriter {
    inner: zip::ZipWriter<Cursor<Vec<u8>>>,
}

/// The entries an archive writer holds so far: for each entry its name,
/// its bytes, and whether it is deflate-compressed rather than stored.
pub uninterp spec fn zip_entries(w: ArchiveWriter) -> Seq<(Seq<char>, Seq<u8>, bool)>;

/// The archive bytes the zip crate produces for a list of entries, with
/// the fixed default timestamp; a function of the entries alone.
pub uninterp spec fn zip_archive_of(entries: Seq<(Seq<char>, Seq<u8>, bool)>) -> Seq<u8>;

/// Whether `zip::ZipWriter::start_file` accepts the step that brings the
/// writer's entries to this list: a function of the list alone, since
/// the writer's state is named by its entries and the options are fixed.
pub uninterp spec fn zip_start_ok(entries: Seq<(Seq<char>, Seq<u8>, bool)>) -> bool;

/// Whether writing the last entry's bytes, bringing the writer's entries
/// to this list, succeeds; a function of the list alone.
pub uninterp spec fn zip_write_ok(entries: Seq<(Seq<char>, Seq<u8>, bool)>) -> bool;

/// Whether `zip::ZipWriter::finish` succeeds on a writer holding these
/// entries; a function of the list alone.
pub uninterp spec fn zip_finish_ok(entries: Seq<(Seq<char>, Seq<u8>, bool)>) -> bool;

/// Relies on `zip::ZipWriter::new`: a fresh writer holds no entries.
#[verifier::external_body]
pub fn zip_writer_new() -> (w: ArchiveWriter)
    ensures
        zip_entries(w) == Seq::<(Seq<char>, Seq<u8>, bool)>::empty(),
{
    ArchiveWriter { inner: zip::ZipWriter::new(Cursor::new(Vec::new())) }
}

/// Relies on `zip::ZipWriter::start_file` with stored (uncompressed)
/// options and the fixed default timestamp: on success it begins one new,
/// empty entry under the given name.
#[verifier::external_body]
pub fn zip_start_file_stored(w: &mut ArchiveWriter, name: &str) -> (r: Result<
    (),
    String,
>)
    ensures
        r is Ok ==> zip_entries(*final(w)) == zip_entries(*old(w)).push(
            (name@, Seq::<u8>::empty(), false),
        ),
        r is Ok <==> zip_start_ok(zip_entries(*old(w)).push((name@, Seq::<u8>::empty(), false))),
{
    let options = zip::write::SimpleFileOptions::default().compression_method(
        zip::CompressionMethod::Stored,
    ).last_modified_time(zip::DateTime::default());
    match w.inner.start_file(name, options) {
        Ok(()) => Ok(()),
        Err(e) => Err(format!("zip entry error: {}", e)),
    }
}

/// Relies on `zip::ZipWriter::start_file` with deflate options and the
/// fixed default timestamp: on success it begins one new, empty
/// deflate-compressed entry under the given name.
#[verifier::external_body]
pub fn zip_start_file_deflated(w: &mut ArchiveWriter, name: &str) -> (r: Result<
    (),
    String,
>)
    ensures
        r is Ok ==> zip_entries(*final(w)) == zip_entries(*old(w)).push(
            (name@, Seq::<u8>::empty(), true),
        ),
        r is Ok <==> zip_start_ok(zip_entries(*old(w)).push((name@, Seq::<u8>::empty(), true))),
{
    let options = zip::write::SimpleFileOptions::default().compression_method(
        zip::CompressionMethod::Deflated,
    ).last_modified_time(zip::DateTime::default());
    match w.inner.start_file(name, options) {
        Ok(()) => Ok(()),
        Err(e) => Err(format!("zip entry error: {}", e)),
    }
}

/// Relies on `std::io::Write::write_all` on `zip::ZipWriter`: on success
/// the bytes extend the entry begun last.
#[verifier::external_body]
pub fn zip_write_data(w: &mut ArchiveWriter, data: &[u8]) -> (r: Result<
    (),
    String,
>)
    requires
        zip_entries(*old(w)).len() > 0,
    ensures
        r is Ok ==> zip_entries(*final(w)) == zip_entries(*old(w)).update(
            zip_entries(*old(w)).len() - 1,
            (
                zip_entries(*old(w)).last().0,
                zip_entries(*old(w)).last().1 + data@,
                zip_entries(*old(w)).last().2,
            ),
        ),
        r is Ok <==> zip_write_ok(
            zip_entries(*old(w)).update(
                zip_entries(*old(w)).len() - 1,
                (
                    zip_entries(*old(w)).last().0,
                    zip_entries(*old(w)).last().1 + data@,
                    zip_entries(*old(w)).last().2,
                ),
            ),
        ),
{
    match w.inner.write_all(data) {
        Ok(()) => Ok(()),
        Err(e) => Err(format!("zip write error: {}", e)),
    }
}

/// Relies on `zip::ZipWriter::finish`: on success the buffer holds the
/// archive bytes for exactly the entries written, a deterministic function
/// of those entries.
#[verifier::external_body]
pub fn zip_finish(w: ArchiveWriter) -> (r: Result<Vec<u8>, String>)
    ensures
        r matches Ok(bytes) ==> bytes@ == zip_archive_of(zip_entries(w)),
        r is Ok <==> zip_finish_ok(zip_entries(w)),
{
    match w.inner.finish() {
        Ok(cursor) => Ok(cursor.into_inner()),
        Err(e) => Err(format!("zip finish error: {}", e)),
    }
}

} // verus!
