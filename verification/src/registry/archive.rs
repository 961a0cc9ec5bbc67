//! Libraries as zip archives held in memory.
//!
//! The archive itself is read by the `zip` crate. What this module states of
//! it is taken on trust: an archive has a list of entries, an entry may or may
//! not open, an entry that opens has a name, and its data may or may not read.

use std::io::Cursor;
use std::io::Read;
use vstd::prelude::*;
use zip::read::ZipArchive;
use zip::result::ZipError;

verus! {

/// An archive reader of the `zip` crate.
#[verifier::external_type_specification]
#[verifier::external_body]
#[verifier::reject_recursive_types(R)]
pub struct ExZipArchive<R>(ZipArchive<R>);

/// A cursor of the standard library: a buffer with a position to read from.
#[verifier::external_type_specification]
#[verifier::external_body]
#[verifier::reject_recursive_types(T)]
pub struct ExCursor<T>(Cursor<T>);

/// What the `zip` crate reports when it cannot read an archive.
#[verifier::external_type_specification]
#[verifier::external_body]
pub struct ExZipError(ZipError);

/// An entry of an archive: its name, and its data if the data can be read.
pub struct Entry {
    pub name: Seq<char>,
    pub data: Option<Seq<u8>>,
}

/// The entries of an archive, in the order of its directory. An entry that
/// cannot be opened stands as `None`.
pub uninterp spec fn archive_entries(archive: ZipArchive<Cursor<Vec<u8>>>) -> Seq<Option<Entry>>;

/// The entries of the archive that `bytes` hold, if they hold one.
pub uninterp spec fn unzipped(bytes: Seq<u8>) -> Option<Seq<Option<Entry>>>;

/// Length of a directory entry before its name.
pub const DIRECTORY_ENTRY_LEN: usize = 46;

/// Where in a directory entry the place of the file it stands for is written,
/// in four bytes.
pub const DIRECTORY_ENTRY_OFFSET: usize = 42;

/// At `at` stand the four bytes that begin a directory entry, and the entry
/// gives the place of its file as all ones: the place is then written out
/// elsewhere in full width.
pub open spec fn far_entry_at(bytes: Seq<u8>, at: int) -> bool {
    &&& 0 <= at
    &&& at + DIRECTORY_ENTRY_LEN <= bytes.len()
    &&& bytes[at] == 0x50
    &&& bytes[at + 1] == 0x4B
    &&& bytes[at + 2] == 0x01
    &&& bytes[at + 3] == 0x02
    &&& bytes[at + 42] == 0xFF
    &&& bytes[at + 43] == 0xFF
    &&& bytes[at + 44] == 0xFF
    &&& bytes[at + 45] == 0xFF
}

/// No directory entry that the bytes could hold places its file beyond what
/// four bytes can say.
pub open spec fn near(bytes: Seq<u8>) -> bool {
    forall|at: int| !far_entry_at(bytes, at)
}

/// Whether no directory entry that the bytes could hold places its file
/// beyond what four bytes can say. An archive held in memory never needs
/// such an entry, and the reader is not handed one.
pub fn is_near(bytes: &Vec<u8>) -> (yes: bool)
    ensures
        yes == near(bytes@),
{
    if bytes.len() < DIRECTORY_ENTRY_LEN {
        return true;
    }
    let last: usize = bytes.len() - DIRECTORY_ENTRY_LEN;
    let mut at: usize = 0;
    while at <= last
        invariant
            last + DIRECTORY_ENTRY_LEN == bytes.len(),
            at <= last + 1,
            forall|p: int| 0 <= p < at ==> !far_entry_at(bytes@, p),
        decreases last + 1 - at,
    {
        if bytes[at] == 0x50 && bytes[at + 1] == 0x4B && bytes[at + 2] == 0x01 && bytes[at + 3] == 0x02 && bytes[at
            + 42] == 0xFF && bytes[at + 43] == 0xFF && bytes[at + 44] == 0xFF && bytes[at + 45] == 0xFF {
            assert(far_entry_at(bytes@, at as int));
            return false;
        }
        at += 1;
    }
    true
}

/// Opens the archive that `bytes` hold.
///
/// Wraps `zip::ZipArchive::new` on a cursor over the bytes. The crate reads
/// the archive's directory and fails if the bytes hold none; what comes back
/// depends on the bytes alone. For each directory entry the crate adds the
/// place of the entry's file to the length of what stands before the archive.
/// The place comes from four bytes of the entry unless those are all ones, so
/// on bytes that are `near` the sum stays far below where it would overflow.
#[verifier::external_body]
pub(crate) fn open_archive(bytes: Vec<u8>) -> (opened: Result<ZipArchive<Cursor<Vec<u8>>>, ZipError>)
    requires
        near(bytes@),
    ensures
        match opened {
            Ok(archive) => unzipped(bytes@) == Some(archive_entries(archive)),
            Err(_) => unzipped(bytes@) is None,
        },
{
    ZipArchive::new(Cursor::new(bytes))
}

/// Number of entries.
///
/// Wraps `ZipArchive::len`, which is the length of the directory.
#[verifier::external_body]
pub(crate) fn archive_len(archive: &ZipArchive<Cursor<Vec<u8>>>) -> (len: usize)
    ensures
        len == archive_entries(*archive).len(),
{
    archive.len()
}

/// The name of the entry at `index`.
///
/// Wraps `ZipArchive::by_index` and `ZipFile::name`. `by_index` fails, among
/// other things, on an index past the end; the name of an entry that opens is
/// the one in the directory. Opening an entry moves the reader and leaves the
/// entries as they are.
#[verifier::external_body]
pub(crate) fn entry_name(archive: &mut ZipArchive<Cursor<Vec<u8>>>, index: usize) -> (name: Option<String>)
    ensures
        archive_entries(*final(archive)) == archive_entries(*old(archive)),
        match name {
            Some(text) => {
                &&& index < archive_entries(*old(archive)).len()
                &&& archive_entries(*old(archive))[index as int] is Some
                &&& text@ == archive_entries(*old(archive))[index as int]->0.name
            },
            None => index >= archive_entries(*old(archive)).len() || archive_entries(
                *old(archive),
            )[index as int] is None,
        },
{
    match archive.by_index(index) {
        Ok(file) => Some(file.name().to_owned()),
        Err(_) => None,
    }
}

/// The data of the entry at `index`, unpacked.
///
/// Wraps `ZipArchive::by_index` and `Read::read_to_end` on the entry. Reading
/// fails if the data is damaged; it leaves the entries as they are.
#[verifier::external_body]
pub(crate) fn entry_data(archive: &mut ZipArchive<Cursor<Vec<u8>>>, index: usize) -> (data: Option<Vec<u8>>)
    ensures
        archive_entries(*final(archive)) == archive_entries(*old(archive)),
        match data {
            Some(bytes) => {
                &&& index < archive_entries(*old(archive)).len()
                &&& archive_entries(*old(archive))[index as int] is Some
                &&& archive_entries(*old(archive))[index as int]->0.data == Some(bytes@)
            },
            None => index >= archive_entries(*old(archive)).len() || archive_entries(
                *old(archive),
            )[index as int] is None || archive_entries(*old(archive))[index as int]->0.data is None,
        },
{
    let mut file = archive.by_index(index).ok()?;
    let mut buffer = Vec::new();
    file.read_to_end(&mut buffer).ok()?;
    Some(buffer)
}

/// What the `zip` crate says of an error.
///
/// Wraps the error's `Display`.
#[verifier::external_body]
pub(crate) fn zip_error_text(error: &ZipError) -> (text: String) {
    format!("{}", error)
}

} // verus!
