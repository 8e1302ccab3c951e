//! The formats of the archives that the server holds.

use core::str::FromStr;
use std::io::{Cursor, Error as IoError, Read};
use vstd::prelude::*;
use zip::result::ZipError;
use zip::ZipArchive;

use crate::failure::FailureKind;
use crate::text::{chars_of, has_suffix};

verus! {

/// The format of an archive.
#[derive(Debug, Clone, Copy, PartialEq, Eq, Structural, PartialOrd, Ord, Hash)]
pub enum ArchiveKind {
    /// A zip archive.
    Zip,
    /// A tar archive, compressed with gzip.
    TarGz,
}

/// Why the format of an archive is not known.
#[derive(Debug, Clone, Copy, PartialEq, Eq, Structural)]
pub enum ArchiveKindErr {
    /// The URL ends in neither `.zip` nor `.tar.gz`.
    Unsupported,
}

/// What the URL of a zip archive ends in.
pub open spec fn zip_suffix() -> Seq<char> {
    seq!['.', 'z', 'i', 'p']
}

/// What the URL of a compressed tar archive ends in.
pub open spec fn tar_gz_suffix() -> Seq<char> {
    seq!['.', 't', 'a', 'r', '.', 'g', 'z']
}

/// The format that the end of `url` tells of.
pub open spec fn kind_of(url: Seq<char>) -> Result<ArchiveKind, ArchiveKindErr> {
    if zip_suffix().is_suffix_of(url) {
        Ok(ArchiveKind::Zip)
    } else if tar_gz_suffix().is_suffix_of(url) {
        Ok(ArchiveKind::TarGz)
    } else {
        Err(ArchiveKindErr::Unsupported)
    }
}

impl ArchiveKind {
    /// The format of the archive at the URL `s`, read off the end of the
    /// URL alone.
    pub fn from_str(s: &str) -> (r: Result<ArchiveKind, ArchiveKindErr>)
        ensures
            r == kind_of(s@),
    {
        let chars = chars_of(s);
        let zip = chars_of(".zip");
        let tar_gz = chars_of(".tar.gz");
        proof {
            reveal_strlit(".zip");
            reveal_strlit(".tar.gz");
            assert(zip@ =~= zip_suffix());
            assert(tar_gz@ =~= tar_gz_suffix());
        }
        if has_suffix(&chars, &zip) {
            Ok(ArchiveKind::Zip)
        } else if has_suffix(&chars, &tar_gz) {
            Ok(ArchiveKind::TarGz)
        } else {
            Err(ArchiveKindErr::Unsupported)
        }
    }
}

impl FromStr for ArchiveKind {
    type Err = ArchiveKindErr;

    /// The format of the archive at the URL `s`, as the inherent function
    /// of this name gives it.
    fn from_str(s: &str) -> (r: Result<Self, Self::Err>)
        ensures
            r == kind_of(s@),
    {
        ArchiveKind::from_str(s)
    }
}

impl ArchiveKindErr {
    /// The kind of this failure: the format is not known.
    pub fn kind(&self) -> (r: FailureKind)
        ensures
            r == FailureKind::FormatFailure,
    {
        FailureKind::FormatFailure
    }

    /// The message of this error.
    pub fn to_string(&self) -> (r: String)
        ensures
            r@ == "unsupported archive format"@,
    {
        crate::text::owned("unsupported archive format")
    }
}

/// Why a body is not fetched.
#[derive(Debug, Clone, Copy, PartialEq, Eq, Structural)]
pub enum TransferErr {
    /// The server declares a body of `declared` bytes, more than the
    /// `limit` that the configuration allows.
    TooLarge { declared: u64, limit: u64 },
}

impl TransferErr {
    /// The kind of this failure: the transfer is refused.
    pub fn kind(&self) -> (r: FailureKind)
        ensures
            r == FailureKind::TransferFailure,
    {
        FailureKind::TransferFailure
    }
}

/// Checks the length that the server declares for a body against the
/// download limit, before anything of the body is read or written. A body
/// of undeclared length passes: the limit then ends the transfer itself.
pub fn check_declared_size(declared: Option<u64>, max_download_size: u64) -> (r: Result<
    (),
    TransferErr,
>)
    ensures
        r == match declared {
            Some(n) => if n > max_download_size {
                Err::<(), TransferErr>(TransferErr::TooLarge { declared: n, limit: max_download_size })
            } else {
                Ok::<(), TransferErr>(())
            },
            None => Ok::<(), TransferErr>(()),
        },
{
    match declared {
        Some(n) => {
            if n > max_download_size {
                Err(TransferErr::TooLarge { declared: n, limit: max_download_size })
            } else {
                Ok(())
            }
        },
        None => Ok(()),
    }
}

/// An error of reading or writing, as the standard library gives it.
#[verifier::external_type_specification]
#[verifier::external_body]
pub struct ExIoError(IoError);

/// A reader over bytes in memory, of the standard library.
#[verifier::external_type_specification]
#[verifier::external_body]
#[verifier::reject_recursive_types(T)]
pub struct ExCursor<T>(Cursor<T>);

/// The directory of a zip archive, of the crate `zip`.
#[verifier::external_type_specification]
#[verifier::external_body]
#[verifier::reject_recursive_types(R)]
pub struct ExZipArchive<R>(ZipArchive<R>);

/// Why an archive cannot be read.
#[derive(Debug)]
pub enum ArchiveError {
    /// Reading the bytes of the archive failed.
    Io(IoError),
    /// The bytes are no zip archive.
    ZipInvalid(String),
    /// The bytes are a zip archive of a kind that cannot be read.
    ZipUnsupported(String),
}

impl ArchiveError {
    /// The kind of this failure: the archive is malformed.
    pub fn kind(&self) -> (r: FailureKind)
        ensures
            r == FailureKind::FormatFailure,
    {
        FailureKind::FormatFailure
    }

    /// The message of this error: for bytes that are no archive that can be
    /// read, what the reader of the archive said of them.
    pub fn to_string(&self) -> (r: String)
        ensures
            *self matches ArchiveError::ZipInvalid(message) ==> r@ == message@,
            *self matches ArchiveError::ZipUnsupported(message) ==> r@ == message@,
    {
        match self {
            ArchiveError::Io(e) => io_error_text(e),
            ArchiveError::ZipInvalid(message) => message.clone(),
            ArchiveError::ZipUnsupported(message) => message.clone(),
        }
    }
}

/// One entry of an archive, read into memory.
#[derive(Debug, Clone, PartialEq, Eq)]
pub struct ArchiveEntry {
    /// The name of the entry, as the archive holds it.
    pub name: Vec<u8>,
    /// Whether the entry is a directory.
    pub is_dir: bool,
    /// What the entry holds.
    pub data: Vec<u8>,
}

impl View for ArchiveEntry {
    type V = (Seq<u8>, bool, Seq<u8>);

    /// The name of the entry, whether it is a directory, and what it
    /// holds.
    open spec fn view(&self) -> (Seq<u8>, bool, Seq<u8>) {
        (self.name@, self.is_dir, self.data@)
    }
}

/// The entries of the zip archive that `bytes` hold, in the order of its
/// directory: for each its name, whether it is a directory, and what it
/// holds unpacked, or `None` for an entry that cannot be unpacked. `None`
/// where `bytes` hold no zip archive that can be read.
pub uninterp spec fn zip_directory(bytes: Seq<u8>) -> Option<
    Seq<Option<(Seq<u8>, bool, Seq<u8>)>>,
>;

/// The entries that an opened zip archive holds, as `zip_directory` gives
/// them for its bytes.
pub uninterp spec fn zip_files(archive: ZipArchive<Cursor<Vec<u8>>>) -> Seq<
    Option<(Seq<u8>, bool, Seq<u8>)>,
>;

/// The message of an error of the standard library, by its `Display`.
#[verifier::external_body]
fn io_error_text(error: &IoError) -> String {
    format!("{}", error)
}

/// `ZipArchive::new` over a `Cursor`: the directory of the zip archive that
/// `bytes` hold. The archive is read from `bytes` alone, so it is opened
/// exactly where `zip_directory` gives entries for them, and holds those.
#[verifier::external_body]
fn zip_open(bytes: Vec<u8>) -> (r: Result<ZipArchive<Cursor<Vec<u8>>>, ArchiveError>)
    ensures
        match r {
            Ok(archive) => zip_directory(bytes@) == Some(zip_files(archive)),
            Err(_) => zip_directory(bytes@) is None,
        },
{
    match ZipArchive::new(Cursor::new(bytes)) {
        Ok(archive) => Ok(archive),
        Err(ZipError::Io(e)) => Err(ArchiveError::Io(e)),
        Err(ZipError::InvalidArchive(message)) => Err(
            ArchiveError::ZipInvalid(message.into_owned()),
        ),
        Err(ZipError::UnsupportedArchive(message)) => Err(
            ArchiveError::ZipUnsupported(message.to_string()),
        ),
        Err(e) => Err(ArchiveError::ZipInvalid(e.to_string())),
    }
}

/// `ZipArchive::len`: the number of entries of the archive.
#[verifier::external_body]
fn zip_len(archive: &ZipArchive<Cursor<Vec<u8>>>) -> (r: usize)
    ensures
        r == zip_files(*archive).len(),
{
    archive.len()
}

/// `ZipArchive::by_index`: the entry at `index`, with its name
/// (`ZipFile::name_raw`), whether it is a directory (`ZipFile::is_dir`) and
/// what it holds. `None` where there is no such entry or it cannot be
/// unpacked. Reading an entry changes nothing of what the archive holds.
#[verifier::external_body]
fn zip_entry(archive: &mut ZipArchive<Cursor<Vec<u8>>>, index: usize) -> (r: Option<ArchiveEntry>)
    ensures
        zip_files(*final(archive)) == zip_files(*old(archive)),
        match r {
            Some(entry) => index < zip_files(*old(archive)).len() && zip_files(
                *old(archive),
            )[index as int] == Some(entry@),
            None => index >= zip_files(*old(archive)).len() || zip_files(
                *old(archive),
            )[index as int] is None,
        },
{
    let mut file = archive.by_index(index).ok()?;
    let name = file.name_raw().to_vec();
    let is_dir = file.is_dir();
    let mut data = Vec::new();
    file.read_to_end(&mut data).ok()?;
    Some(ArchiveEntry { name, is_dir, data })
}

/// The walk over the entries of a zip archive that is held in memory,
/// each entry unpacked when it is asked for.
pub struct ZipEntries {
    archive: ZipArchive<Cursor<Vec<u8>>>,
    index: usize,
}

impl ZipEntries {
    /// The entries of the archive, in the order of its directory: see
    /// `zip_directory`.
    pub closed spec fn contents(&self) -> Seq<Option<(Seq<u8>, bool, Seq<u8>)>> {
        zip_files(self.archive)
    }

    /// The number of entries that were asked for.
    pub closed spec fn position(&self) -> nat {
        self.index as nat
    }

    /// The number of entries of the archive.
    pub open spec fn count(&self) -> nat {
        self.contents().len()
    }

    /// Opens the zip archive that `bytes` hold: the walk begins before the
    /// first of the entries that the bytes hold, and bytes that hold no
    /// archive are an error.
    pub fn open(bytes: Vec<u8>) -> (r: Result<ZipEntries, ArchiveError>)
        ensures
            match r {
                Ok(entries) => zip_directory(bytes@) == Some(entries.contents())
                    && entries.position() == 0,
                Err(_) => zip_directory(bytes@) is None,
            },
    {
        match zip_open(bytes) {
            Ok(archive) => Ok(ZipEntries { archive, index: 0 }),
            Err(e) => Err(e),
        }
    }

    /// The number of entries that are still to come.
    pub fn remaining(&self) -> (r: usize)
        ensures
            r == if self.position() <= self.count() {
                self.count() - self.position()
            } else {
                0
            },
    {
        let len = zip_len(&self.archive);
        if self.index <= len {
            len - self.index
        } else {
            0
        }
    }

    /// The next entry in the order of the archive. `None` after the last
    /// entry, and for an entry that cannot be unpacked; that entry is passed
    /// over all the same.
    pub fn next(&mut self) -> (r: Option<ArchiveEntry>)
        ensures
            final(self).contents() == old(self).contents(),
            old(self).position() < old(self).count() ==> final(self).position() == old(
                self,
            ).position() + 1 && match r {
                Some(entry) => old(self).contents()[old(self).position() as int] == Some(entry@),
                None => old(self).contents()[old(self).position() as int] is None,
            },
            old(self).position() >= old(self).count() ==> r is None && final(self).position()
                == old(self).position(),
    {
        let len = zip_len(&self.archive);
        if self.index >= len {
            return None;
        }
        let index = self.index;
        self.index = index + 1;
        zip_entry(&mut self.archive, index)
    }
}

} // verus!
