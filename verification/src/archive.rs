//! The archive that is being written.
//!
//! The writer is a `zip::ZipWriter` over a buffer in memory. Verus does not
//! look inside it: the entries written so far are named by
//! [`archive_entries`], and the functions below state, over that name, what
//! each call does when it succeeds. None of these statements is proved.
//! Nothing is said of a writer after a call on it has failed.
//!
//! The writer works in memory and reads no clock, so whether it takes what it
//! is handed depends on the writer and on what is handed to it, and on nothing
//! else. When it does is not spelled out either: its answers are named by
//! [`archive_takes_entry`], [`archive_takes_data`] and [`archive_closes`].
//!
//! The bytes of the finished archive are not spelled out: they follow the
//! archive format and vary with the platform that the archive is written on.
//! They are named by [`archive_image`], as what the writer gives when it is
//! finished.

use std::io::Cursor;
use std::io::Write;
use vstd::prelude::*;
use zip::result::ZipError;
use zip::write::SimpleFileOptions;
use zip::ZipWriter;

verus! {

/// The entries of an archive, in the order in which they were started: the
/// name of each and the bytes written to it.
pub type Entries = Seq<(Seq<char>, Seq<u8>)>;

/// A `zip::ZipWriter` that writes into memory, opaque to the verifier.
#[verifier::external_body]
pub struct ArchiveWriter {
    inner: ZipWriter<Cursor<Vec<u8>>>,
}

/// `zip::result::ZipError`, opaque to the verifier.
#[verifier::external_type_specification]
#[verifier::external_body]
pub struct ExZipError(ZipError);

/// The entries that a writer holds.
pub uninterp spec fn archive_entries(writer: ArchiveWriter) -> Entries;

/// Whether a writer starts an entry called `name`. It does not where it
/// already holds an entry of that name, nor where the name is too long for
/// the header of an entry.
pub uninterp spec fn archive_takes_entry(writer: ArchiveWriter, name: Seq<char>) -> bool;

/// Whether a writer takes `data` for the entry that it started last.
pub uninterp spec fn archive_takes_data(writer: ArchiveWriter, data: Seq<u8>) -> bool;

/// Whether a writer can be finished.
pub uninterp spec fn archive_closes(writer: ArchiveWriter) -> bool;

/// The archive that a writer holds, as the bytes that finishing the writer
/// gives: all that was laid down for its entries, closed by the directory of
/// the archive.
pub uninterp spec fn archive_image(writer: ArchiveWriter) -> Seq<u8>;

/// `entries` after `data` was written to the entry started last. Without an
/// entry there is nothing to write to, and `entries` stays empty.
pub open spec fn with_data_appended(entries: Entries, data: Seq<u8>) -> Entries {
    if entries.len() == 0 {
        entries
    } else {
        entries.update(entries.len() - 1, (entries.last().0, entries.last().1 + data))
    }
}

/// `ZipWriter::new` over an empty buffer: a writer without entries.
#[verifier::external_body]
pub(crate) fn archive_new() -> (writer: ArchiveWriter)
    ensures
        archive_entries(writer) == Entries::empty(),
{
    ArchiveWriter { inner: ZipWriter::new(Cursor::new(Vec::new())) }
}

/// `ZipWriter::start_file` with the default options: it succeeds where the
/// writer takes an entry of that name, and then the entry before it is closed
/// and a new, empty entry called `name` follows the others.
#[verifier::external_body]
pub(crate) fn archive_start_file(writer: &mut ArchiveWriter, name: &str) -> (started: Result<
    (),
    ZipError,
>)
    ensures
        started is Ok == archive_takes_entry(*old(writer), name@),
        started is Ok ==> archive_entries(*final(writer)) == archive_entries(*old(writer)).push(
            (name@, Seq::empty()),
        ),
{
    writer.inner.start_file(name, SimpleFileOptions::default())
}

/// `Write::write_all` on the writer: it succeeds where the writer takes the
/// data, and then all of `data` was added to the entry started last. Its
/// error is handed on as the archive error that holds it.
#[verifier::external_body]
pub(crate) fn archive_write_all(writer: &mut ArchiveWriter, data: &[u8]) -> (written: Result<
    (),
    ZipError,
>)
    ensures
        written is Ok == archive_takes_data(*old(writer), data@),
        written is Ok ==> archive_entries(*final(writer)) == with_data_appended(
            archive_entries(*old(writer)),
            data@,
        ),
{
    match writer.inner.write_all(data) {
        Ok(()) => Ok(()),
        Err(error) => Err(ZipError::Io(error)),
    }
}

/// `ZipWriter::finish`: closes the archive and hands out the buffer that it
/// was written into. It succeeds where the writer can be finished, and then
/// the buffer holds the archive of the writer, which the state of the writer
/// alone determines.
#[verifier::external_body]
pub(crate) fn archive_finish(writer: ArchiveWriter) -> (finished: Result<Vec<u8>, ZipError>)
    ensures
        finished is Ok == archive_closes(writer),
        finished matches Ok(bytes) ==> bytes@ == archive_image(writer),
{
    match writer.inner.finish() {
        Ok(buffer) => Ok(buffer.into_inner()),
        Err(error) => Err(error),
    }
}

} // verus!
