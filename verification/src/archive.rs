//! ZIP archives held in memory, as saved worlds are stored.

use std::io::{Cursor, Read, Write};

use vstd::prelude::*;

use zip::result::ZipError;
use zip::write::SimpleFileOptions;
use zip::{CompressionMethod, ZipArchive, ZipWriter};

verus! {

/// `std::io::Cursor`, the in-memory reader that archives are read from. Opaque.
#[verifier::external_type_specification]
#[verifier::external_body]
#[verifier::reject_recursive_types(T)]
pub struct ExCursor<T>(Cursor<T>);

/// `zip::ZipArchive`, an archive opened for reading. Opaque: what it holds is named by
/// [`zip_archive_source`] and [`zip_entries`].
#[verifier::external_type_specification]
#[verifier::external_body]
#[verifier::reject_recursive_types(R)]
pub struct ExZipArchive<R>(ZipArchive<R>);

/// An archive being written in memory.
///
/// Trusted: the `ZipWriter` is held in a field that Verus does not see, as Verus refuses to
/// declare the writer type itself (its parameter is bound by `std::io` traits).
#[verifier::external_body]
pub struct ArchiveWriter {
    inner: ZipWriter<Cursor<Vec<u8>>>,
}

/// `zip::result::ZipError`. Opaque.
#[verifier::external_type_specification]
#[verifier::external_body]
pub struct ExZipError(ZipError);

/// `std::io::Error`. Opaque.
#[verifier::external_type_specification]
#[verifier::external_body]
pub struct ExIoError(std::io::Error);

/// The files, as names and contents in order, that the archive in `bytes` holds.
pub uninterp spec fn zip_entries(bytes: Seq<u8>) -> Seq<(Seq<char>, Seq<u8>)>;

/// The bytes an archive was opened from.
pub uninterp spec fn zip_archive_source(a: ZipArchive<Cursor<Vec<u8>>>) -> Seq<u8>;

/// The files, as names and contents in order, written so far into an archive being built.
pub uninterp spec fn zip_written(w: ArchiveWriter) -> Seq<(Seq<char>, Seq<u8>)>;

/// Whether a file has been started in an archive being built and is open for writing.
pub uninterp spec fn zip_writing(w: ArchiveWriter) -> bool;

/// Whether `bytes` hold an archive as `ZipWriter::finish` leaves it: one that opens, and whose
/// every file reads back whole.
pub uninterp spec fn zip_sound(bytes: Seq<u8>) -> bool;

/// The largest file, in bytes, that an archive takes without its size fields overflowing: the
/// writer refuses a file of more than `u32::MAX` bytes, before or after compression, and
/// deflate adds far less than the other half to a file of this size.
pub const MAX_ARCHIVE_FILE_BYTES: usize = 0x8000_0000;

/// Whether the file being written, if any, is small enough for the archive to close it.
pub open spec fn open_file_fits(w: ArchiveWriter) -> bool {
    zip_writing(w) ==> zip_written(w).len() > 0 && zip_written(w).last().1.len()
        <= MAX_ARCHIVE_FILE_BYTES
}

/// Whether an archive holds a file named `name`.
pub open spec fn has_entry(entries: Seq<(Seq<char>, Seq<u8>)>, name: Seq<char>) -> bool {
    exists|i: int| 0 <= i < entries.len() && (#[trigger] entries[i]).0 == name
}

/// Starts an empty archive in memory.
///
/// Trusted: calls `ZipWriter::new` on an empty `Cursor<Vec<u8>>`. A new writer holds no files
/// and has none open.
#[verifier::external_body]
pub(crate) fn new_archive_writer() -> (w: ArchiveWriter)
    ensures
        zip_written(w) == Seq::<(Seq<char>, Seq<u8>)>::empty(),
        !zip_writing(w),
{
    ArchiveWriter { inner: ZipWriter::new(Cursor::new(Vec::new())) }
}

/// Starts a new, deflate-compressed file named `name`.
///
/// Trusted: calls `ZipWriter::start_file`. Its source refuses a name that the archive already
/// holds ("Duplicate filename"), and otherwise fails only where closing the file still open
/// finds it too large; when it succeeds, the archive holds one more file, named `name`, empty
/// so far and open for writing. A name of more than `u16::MAX` bytes panics in the crate, and
/// four bytes per character bound the bytes. What a failed call leaves behind is not stated.
#[verifier::external_body]
pub(crate) fn start_archive_file(w: &mut ArchiveWriter, name: &str) -> (r: Result<(), ZipError>)
    requires
        name@.len() <= 16383,
    ensures
        has_entry(zip_written(*old(w)), name@) ==> r is Err,
        !has_entry(zip_written(*old(w)), name@) && open_file_fits(*old(w)) ==> r is Ok,
        r is Ok ==> zip_written(*final(w)) == zip_written(*old(w)).push((name@, Seq::<u8>::empty())),
        r is Ok ==> zip_writing(*final(w)),
{
    let options = SimpleFileOptions::default().compression_method(CompressionMethod::Deflated);
    w.inner.start_file(name, options)
}

/// Appends `data` to the file being written.
///
/// Trusted: calls `Write::write_all` on the writer. Its `write` appends to the file last
/// started and fails when no file is open, or when the file would pass `u32::MAX` bytes; the
/// in-memory writer fails for no other reason. With no data, `write_all` succeeds at once and
/// changes nothing. What a failed call leaves behind is not stated.
#[verifier::external_body]
pub(crate) fn write_archive_data(w: &mut ArchiveWriter, data: &[u8]) -> (r: Result<(), std::io::Error>)
    ensures
        zip_writing(*old(w)) && zip_written(*old(w)).len() > 0 && zip_written(*old(w)).last().1.len()
            + data@.len() <= u32::MAX ==> r is Ok,
        r is Ok ==> zip_writing(*final(w)) == zip_writing(*old(w)),
        r is Ok && zip_written(*old(w)).len() == 0 ==> data@.len() == 0 && zip_written(*final(w))
            == zip_written(*old(w)),
        r is Ok && zip_written(*old(w)).len() > 0 ==> zip_written(*final(w)) == zip_written(
            *old(w),
        ).update(
            zip_written(*old(w)).len() - 1,
            (zip_written(*old(w)).last().0, zip_written(*old(w)).last().1 + data@),
        ),
{
    w.inner.write_all(data)
}

/// Finishes the archive and gives back its bytes.
///
/// Trusted: calls `ZipWriter::finish` and takes the bytes out of the cursor it returns. It
/// fails only where closing the file still open finds it too large. Read back, the bytes hold
/// the files that were written, in the order they were written: the crate's write-then-read
/// round trip.
#[verifier::external_body]
pub(crate) fn finish_archive(w: ArchiveWriter) -> (r: Result<Vec<u8>, ZipError>)
    ensures
        open_file_fits(w) ==> r is Ok,
        r matches Ok(b) ==> zip_sound(b@) && zip_entries(b@) == zip_written(w),
{
    w.inner.finish().map(|c| c.into_inner())
}

/// Opens the archive held in `bytes`.
///
/// Trusted: calls `ZipArchive::new` on a cursor over a copy of the bytes. The archive is made from
/// these bytes; an archive as the writer leaves it opens. Which other bytes fail is not stated.
#[verifier::external_body]
pub(crate) fn open_archive(bytes: &[u8]) -> (r: Result<ZipArchive<Cursor<Vec<u8>>>, ZipError>)
    ensures
        zip_sound(bytes@) ==> r is Ok,
        r matches Ok(a) ==> zip_archive_source(a) == bytes@,
{
    ZipArchive::new(Cursor::new(bytes.to_vec()))
}

/// The names of the files in an archive, in order.
///
/// Trusted: calls `ZipArchive::file_names`, which walks the keys of the archive's index of
/// files: each name once, in the order of the archive.
#[verifier::external_body]
pub(crate) fn archive_file_names(a: &ZipArchive<Cursor<Vec<u8>>>) -> (names: Vec<String>)
    ensures
        names.len() == zip_entries(zip_archive_source(*a)).len(),
        forall|i: int|
            0 <= i < names.len() ==> (#[trigger] names@[i])@ == zip_entries(
                zip_archive_source(*a),
            )[i].0,
        forall|i: int, j: int|
            0 <= i < j < names.len() ==> zip_entries(zip_archive_source(*a))[i].0 != zip_entries(
                zip_archive_source(*a),
            )[j].0,
{
    a.file_names().map(|n| n.to_string()).collect()
}

/// Why a file of an archive could not be read.
pub enum ArchiveReadError {
    /// The archive holds no file of that name.
    FileNotFound,
    /// The file could not be found or opened for another reason.
    Zip(ZipError),
    /// The file's contents could not be read.
    Io(std::io::Error),
}

/// Reads the whole of the file named `name`.
///
/// Trusted: calls `ZipArchive::by_name` and reads the file it gives to the end. `by_name`
/// fails with `FileNotFound` exactly when the archive's index has no such name; what is read
/// is that file's contents. In an archive as the writer leaves it, every file reads back.
#[verifier::external_body]
pub(crate) fn read_archive_file(a: &mut ZipArchive<Cursor<Vec<u8>>>, name: &str) -> (r: Result<Vec<u8>, ArchiveReadError>)
    ensures
        zip_archive_source(*final(a)) == zip_archive_source(*old(a)),
        (r matches Err(ArchiveReadError::FileNotFound)) == !has_entry(
            zip_entries(zip_archive_source(*old(a))),
            name@,
        ),
        r matches Ok(d) ==> zip_entries(zip_archive_source(*old(a))).contains((name@, d@)),
        zip_sound(zip_archive_source(*old(a))) && has_entry(
            zip_entries(zip_archive_source(*old(a))),
            name@,
        ) ==> r is Ok,
{
    let mut file = match a.by_name(name) {
        Ok(f) => f,
        Err(ZipError::FileNotFound) => return Err(ArchiveReadError::FileNotFound),
        Err(e) => return Err(ArchiveReadError::Zip(e)),
    };
    let mut data = Vec::new();
    match file.read_to_end(&mut data) {
        Ok(_) => Ok(data),
        Err(e) => Err(ArchiveReadError::Io(e)),
    }
}

} // verus!
